//! Named things in order: the largest first, and in groups of one name.
//!
//! What was measured of a thing is known here by its rank, an integer that is larger for a larger
//! measure.

use vstd::prelude::*;
use vstd::utf8::encode_utf8;

use crate::sorting::{
    bytes_in_order, bytes_le, bytes_order, bytes_transitive, same_items, sort, sorted, Ranked,
};
use crate::text::{same_text, text_view, views};

verus! {

broadcast use vstd::string::group_string_axioms;

// ---------------------------------------------------------------------------
// The order of names
// ---------------------------------------------------------------------------

/// Whether a name comes before another: by the bytes of their UTF-8 encodings.
pub open spec fn name_before(left: Seq<char>, right: Seq<char>) -> bool {
    left != right && bytes_le(encode_utf8(left), encode_utf8(right))
}

proof fn same_encoding(left: Seq<char>, right: Seq<char>)
    requires
        encode_utf8(left) == encode_utf8(right),
    ensures
        left == right,
{
    vstd::utf8::encode_utf8_decode_utf8(left);
    vstd::utf8::encode_utf8_decode_utf8(right);
}

/// Of two different names just one comes before the other.
pub proof fn names_are_ordered(left: Seq<char>, right: Seq<char>)
    ensures
        left != right ==> (name_before(left, right) <==> !name_before(right, left)),
{
    bytes_order(encode_utf8(left), encode_utf8(right));
    if encode_utf8(left) == encode_utf8(right) {
        same_encoding(left, right);
    }
}

// ---------------------------------------------------------------------------
// The largest first
// ---------------------------------------------------------------------------

/// Whether a thing is listed before another: larger ones first, then by name, then as they stand.
pub open spec fn listed_before(
    names: Seq<Seq<char>>,
    ranks: Seq<i64>,
    left: int,
    right: int,
) -> bool {
    ||| ranks[left] > ranks[right]
    ||| ranks[left] == ranks[right] && name_before(names[left], names[right])
    ||| ranks[left] == ranks[right] && names[left] == names[right] && left < right
}

/// Whether indices list all things, each once, the largest first.
pub open spec fn lists_largest_first(
    order: Seq<usize>,
    names: Seq<Seq<char>>,
    ranks: Seq<i64>,
) -> bool {
    &&& forall|k: usize| #[trigger] order.contains(k) <==> k < names.len()
    &&& forall|i: int, j: int|
        #![trigger order[i], order[j]]
        0 <= i < j < order.len() ==> listed_before(
            names,
            ranks,
            order[i] as int,
            order[j] as int,
        )
}

/// A name, a rank, and where they stand.
struct Placed {
    name: String,
    rank: i64,
    index: usize,
}

impl Ranked for Placed {
    closed spec fn before(&self, other: &Self) -> bool {
        ||| self.rank > other.rank
        ||| self.rank == other.rank && name_before(self.name@, other.name@)
        ||| self.rank == other.rank && self.name@ == other.name@ && self.index <= other.index
    }

    fn in_order(&self, other: &Self) -> (ordered: bool) {
        if self.rank != other.rank {
            self.rank > other.rank
        } else if same_text(self.name.as_str(), other.name.as_str()) {
            self.index <= other.index
        } else {
            bytes_in_order(self.name.as_str().as_bytes(), other.name.as_str().as_bytes())
        }
    }

    proof fn order_is_total(left: &Self, right: &Self) {
        names_are_ordered(left.name@, right.name@);
    }

    proof fn order_is_transitive(a: &Self, b: &Self, c: &Self) {
        bytes_order(encode_utf8(a.name@), encode_utf8(b.name@));
        bytes_order(encode_utf8(b.name@), encode_utf8(c.name@));
        if a.rank == b.rank && b.rank == c.rank && name_before(a.name@, b.name@) && name_before(
            b.name@,
            c.name@,
        ) {
            bytes_transitive(encode_utf8(a.name@), encode_utf8(b.name@), encode_utf8(c.name@));
            names_are_ordered(a.name@, b.name@);
        }
    }
}

/// Whether things are placed with their names and ranks, each once.
spec fn places(placed: Seq<Placed>, names: Seq<Seq<char>>, ranks: Seq<i64>) -> bool {
    &&& placed.no_duplicates()
    &&& forall|i: int|
        0 <= i < placed.len() ==> {
            let it = #[trigger] placed[i];
            &&& it.index < names.len()
            &&& it.name@ == names[it.index as int]
            &&& it.rank == ranks[it.index as int]
        }
    &&& forall|i: int, j: int|
        #![trigger placed[i], placed[j]]
        0 <= i < placed.len() && 0 <= j < placed.len() && placed[i].index == placed[j].index ==> i
            == j
}

/// What is placed stays placed in another order.
proof fn places_permute(
    placed: Seq<Placed>,
    ordered: Seq<Placed>,
    names: Seq<Seq<char>>,
    ranks: Seq<i64>,
)
    requires
        places(placed, names, ranks),
        ordered.to_multiset() == placed.to_multiset(),
    ensures
        places(ordered, names, ranks),
        forall|it: Placed| #[trigger] ordered.contains(it) <==> placed.contains(it),
{
    same_items(placed, ordered);
    placed.lemma_multiset_has_no_duplicates();
    ordered.lemma_multiset_has_no_duplicates_conv();
    assert forall|i: int| 0 <= i < ordered.len() implies {
        let it = #[trigger] ordered[i];
        &&& it.index < names.len()
        &&& it.name@ == names[it.index as int]
        &&& it.rank == ranks[it.index as int]
    } by {
        assert(ordered.contains(ordered[i]));
        assert(placed.contains(ordered[i]));
    }
    assert forall|i: int, j: int|
        #![trigger ordered[i], ordered[j]]
        0 <= i < ordered.len() && 0 <= j < ordered.len() && ordered[i].index
            == ordered[j].index implies i == j by {
        assert(ordered.contains(ordered[i]) && ordered.contains(ordered[j]));
        assert(placed.contains(ordered[i]) && placed.contains(ordered[j]));
        let a = choose|a: int| 0 <= a < placed.len() && placed[a] == ordered[i];
        let b = choose|b: int| 0 <= b < placed.len() && placed[b] == ordered[j];
        assert(a == b);
        assert(ordered[i] == ordered[j]);
    }
}

/// The indices of things, the largest first, then by name, then as they stand.
pub fn largest_first(names: &[String], ranks: &[i64]) -> (order: Vec<usize>)
    requires
        names@.len() == ranks@.len(),
    ensures
        lists_largest_first(order@, views(names@), ranks@),
{
    let ghost all = views(names@);
    let mut placed: Vec<Placed> = Vec::with_capacity(names.len());
    let mut index: usize = 0;
    while index < names.len()
        invariant
            index <= names@.len(),
            all == views(names@),
            names@.len() == ranks@.len(),
            placed@.len() == index,
            forall|i: int|
                0 <= i < index ==> (#[trigger] placed@[i]).index == i && placed@[i].name@ == all[i]
                    && placed@[i].rank == ranks@[i],
        decreases names@.len() - index,
    {
        placed.push(Placed { name: names[index].clone(), rank: ranks[index], index });
        index += 1;
    }
    let ghost before = placed@;
    let placed = sort(placed);
    proof {
        places_permute(before, placed@, all, ranks@);
        same_items(before, placed@);
    }
    let mut order: Vec<usize> = Vec::with_capacity(placed.len());
    let mut at: usize = 0;
    while at < placed.len()
        invariant
            at <= placed@.len(),
            order@.len() == at,
            forall|i: int| 0 <= i < at ==> #[trigger] order@[i] == placed@[i].index,
        decreases placed@.len() - at,
    {
        order.push(placed[at].index);
        at += 1;
    }
    proof {
        assert forall|k: usize| #[trigger] order@.contains(k) <==> k < all.len() by {
            if order@.contains(k) {
                let i = choose|i: int| 0 <= i < order@.len() && order@[i] == k;
                assert(placed@[i].index == k);
            }
            if k < all.len() {
                assert(before.contains(before[k as int]));
                assert(placed@.contains(before[k as int]));
                let i = choose|i: int| 0 <= i < placed@.len() && placed@[i] == before[k as int];
                assert(order@[i] == k);
            }
        }
        assert forall|i: int, j: int|
            #![trigger order@[i], order@[j]]
            0 <= i < j < order@.len() implies listed_before(
            all,
            ranks@,
            order@[i] as int,
            order@[j] as int,
        ) by {
            assert(placed@[i].before(&placed@[j]));
            assert(placed@[i].index != placed@[j].index);
        }
    }
    order
}

/// Things have only one order with the largest first.
pub proof fn largest_first_is_unique(
    left: Seq<usize>,
    right: Seq<usize>,
    names: Seq<Seq<char>>,
    ranks: Seq<i64>,
)
    requires
        lists_largest_first(left, names, ranks),
        lists_largest_first(right, names, ranks),
    ensures
        left == right,
{
    same_order_from(left, right, names, ranks, 0);
}

proof fn listed_once(names: Seq<Seq<char>>, ranks: Seq<i64>, left: int, right: int)
    requires
        listed_before(names, ranks, left, right),
    ensures
        !listed_before(names, ranks, right, left),
{
    names_are_ordered(names[left], names[right]);
}

proof fn same_order_from(
    left: Seq<usize>,
    right: Seq<usize>,
    names: Seq<Seq<char>>,
    ranks: Seq<i64>,
    count: int,
)
    requires
        lists_largest_first(left, names, ranks),
        lists_largest_first(right, names, ranks),
        0 <= count <= left.len(),
        count <= right.len(),
        forall|i: int| 0 <= i < count ==> #[trigger] left[i] == right[i],
    ensures
        left == right,
    decreases left.len() - count,
{
    if count < left.len() {
        assert(left.contains(left[count]));
        assert(right.contains(left[count]));
        let j = choose|j: int| 0 <= j < right.len() && right[j] == left[count];
        if j < count {
            assert(left[j] == right[j]);
            listed_once(names, ranks, left[j] as int, left[count] as int);
        }
        assert(right.contains(right[count]));
        assert(left.contains(right[count]));
        let i = choose|i: int| 0 <= i < left.len() && left[i] == right[count];
        if i < count {
            assert(left[i] == right[i]);
            listed_once(names, ranks, right[i] as int, right[count] as int);
        }
        if i > count && j > count {
            assert(listed_before(names, ranks, left[count] as int, left[i] as int));
            assert(listed_before(names, ranks, right[count] as int, right[j] as int));
            listed_once(names, ranks, left[count] as int, left[i] as int);
        }
        same_order_from(left, right, names, ranks, count + 1);
    } else {
        if count < right.len() {
            assert(right.contains(right[count]));
            assert(left.contains(right[count]));
            let i = choose|i: int| 0 <= i < left.len() && left[i] == right[count];
            assert(left[i] == right[i]);
            listed_once(names, ranks, right[i] as int, right[count] as int);
        }
        assert(left =~= right);
    }
}

// ---------------------------------------------------------------------------
// Groups of one name
// ---------------------------------------------------------------------------

/// The things of one name, by their indices.
#[derive(Clone, Debug, Eq, PartialEq)]
pub struct NameGroup {
    pub name: String,
    pub members: Vec<usize>,
}

/// A name with the indices of its things.
pub type GroupModel = (Seq<char>, Seq<usize>);

impl View for NameGroup {
    type V = GroupModel;

    open spec fn view(&self) -> GroupModel {
        (self.name@, self.members@)
    }
}

/// The names of things, where they have one.
pub open spec fn name_views(names: Seq<Option<String>>) -> Seq<Option<Seq<char>>> {
    Seq::new(names.len(), |i: int| text_view(names[i]))
}

/// Whether indices stand in order, each once.
pub open spec fn increasing(members: Seq<usize>) -> bool {
    forall|i: int, j: int|
        #![trigger members[i], members[j]]
        0 <= i < j < members.len() ==> members[i] < members[j]
}

/// Whether a group holds just the things of its name, in order.
pub open spec fn holds_name(group: GroupModel, names: Seq<Option<Seq<char>>>) -> bool {
    &&& group.1.len() > 0
    &&& increasing(group.1)
    &&& forall|k: usize| #[trigger]
        group.1.contains(k) <==> k < names.len() && names[k as int] == Some(group.0)
}

/// Whether groups stand in the order of their names.
pub open spec fn in_name_order(groups: Seq<GroupModel>) -> bool {
    forall|i: int, j: int|
        #![trigger groups[i], groups[j]]
        0 <= i < j < groups.len() ==> name_before(groups[i].0, groups[j].0)
}

/// Whether a group has a name.
pub open spec fn has_name(groups: Seq<GroupModel>, name: Seq<char>, at: int) -> bool {
    0 <= at < groups.len() && groups[at].0 == name
}

/// Whether one of the groups has a name.
pub open spec fn is_grouped(groups: Seq<GroupModel>, name: Seq<char>) -> bool {
    exists|at: int| has_name(groups, name, at)
}

/// Whether groups hold all things that have a name, in the order of the names.
pub open spec fn groups_names(groups: Seq<GroupModel>, names: Seq<Option<Seq<char>>>) -> bool {
    &&& in_name_order(groups)
    &&& forall|i: int| 0 <= i < groups.len() ==> holds_name(#[trigger] groups[i], names)
    &&& forall|k: int|
        0 <= k < names.len() ==> (#[trigger] names[k] matches Some(name) ==> is_grouped(
            groups,
            name,
        ))
}

/// Whether one of the first `count` things has an index and a name.
spec fn placed_at(placed: Seq<Placed>, count: int, index: usize, name: Seq<char>) -> bool {
    exists|j: int| 0 <= j < count && (#[trigger] placed[j]).index == index && placed[j].name@ == name
}

/// Whether groups hold just the first `count` things.
spec fn swept(groups: Seq<GroupModel>, placed: Seq<Placed>, count: int) -> bool {
    &&& in_name_order(groups)
    &&& forall|i: int| 0 <= i < groups.len() ==> (#[trigger] groups[i]).1.len() > 0
    &&& forall|i: int| 0 <= i < groups.len() ==> increasing((#[trigger] groups[i]).1)
    &&& forall|i: int, k: usize|
        #![trigger groups[i].1.contains(k)]
        0 <= i < groups.len() ==> (groups[i].1.contains(k) <==> placed_at(
            placed,
            count,
            k,
            groups[i].0,
        ))
    &&& forall|j: int|
        0 <= j < count ==> is_grouped(groups, (#[trigger] placed[j]).name@)
    &&& groups.len() == 0 <==> count == 0
    &&& count > 0 ==> {
        let last = groups[groups.len() - 1];
        last.0 == placed[count - 1].name@ && last.1[last.1.len() - 1] == placed[count - 1].index
    }
}

proof fn sweep_further(groups: Seq<GroupModel>, placed: Seq<Placed>, count: int)
    requires
        swept(groups, placed, count),
        sorted(placed),
        0 <= count < placed.len(),
        forall|i: int, j: int|
            #![trigger placed[i], placed[j]]
            0 <= i < j < placed.len() ==> placed[i].index != placed[j].index,
        forall|i: int| 0 <= i < placed.len() ==> (#[trigger] placed[i]).rank == 0,
    ensures
        ({
            let it = placed[count];
            let last = groups[groups.len() - 1];
            if groups.len() > 0 && last.0 == it.name@ {
                swept(groups.drop_last().push((last.0, last.1.push(it.index))), placed, count + 1)
            } else {
                swept(groups.push((it.name@, seq![it.index])), placed, count + 1)
            }
        }),
{
    let it = placed[count];
    let name = it.name@;
    let last = groups[groups.len() - 1];
    let same = groups.len() > 0 && last.0 == name;
    let kept = if same {
        groups.drop_last()
    } else {
        groups
    };
    let group = if same {
        (last.0, last.1.push(it.index))
    } else {
        (name, seq![it.index])
    };
    let now = kept.push(group);
    if count > 0 {
        assert(placed[count - 1].before(&placed[count]));
        assert(same || name_before(last.0, name));
    }
    assert forall|i: int| 0 <= i < kept.len() implies name_before((#[trigger] kept[i]).0, name) by {
        assert(kept[i] == groups[i]);
        if i < groups.len() - 1 {
            assert(name_before(groups[i].0, last.0));
            if !same {
                bytes_transitive(
                    encode_utf8(groups[i].0),
                    encode_utf8(last.0),
                    encode_utf8(name),
                );
                names_are_ordered(groups[i].0, last.0);
            }
        }
    }
    assert forall|i: int, j: int|
        #![trigger now[i], now[j]]
        0 <= i < j < now.len() implies name_before(now[i].0, now[j].0) by {
        if j < kept.len() {
            assert(name_before(groups[i].0, groups[j].0));
        } else {
            assert(kept[i] == now[i]);
        }
    }
    assert forall|i: int| 0 <= i < now.len() implies increasing((#[trigger] now[i]).1) by {
        if i == kept.len() {
            if same {
                assert(increasing(last.1));
                assert(placed[count - 1].index < it.index);
                assert forall|a: int, b: int|
                    #![trigger group.1[a], group.1[b]]
                    0 <= a < b < group.1.len() implies group.1[a] < group.1[b] by {
                    if b == last.1.len() {
                        if a < last.1.len() - 1 {
                            assert(last.1[a] < last.1[last.1.len() - 1]);
                        }
                    } else {
                        assert(last.1[a] < last.1[b]);
                    }
                }
            }
        } else {
            assert(now[i] == groups[i]);
        }
    }
    assert forall|i: int, k: usize|
        #![trigger now[i].1.contains(k)]
        0 <= i < now.len() implies (now[i].1.contains(k) <==> placed_at(
        placed,
        count + 1,
        k,
        now[i].0,
    )) by {
        let wanted = now[i].0;
        if placed_at(placed, count + 1, k, wanted) {
            let j = choose|j: int|
                0 <= j < count + 1 && (#[trigger] placed[j]).index == k && placed[j].name@ == wanted;
            if j < count {
                assert(placed_at(placed, count, k, wanted));
            }
        }
        if placed_at(placed, count, k, wanted) {
            let j = choose|j: int|
                0 <= j < count && (#[trigger] placed[j]).index == k && placed[j].name@ == wanted;
            assert(placed_at(placed, count + 1, k, wanted)) by {
                assert(placed[j].index == k);
            }
        }
        if i < kept.len() {
            assert(now[i] == groups[i]);
            assert(kept[i] == groups[i]);
            assert(groups[i].1.contains(k) <==> placed_at(placed, count, k, wanted));
            assert(wanted != name);
        } else {
            assert(placed_at(placed, count + 1, it.index, name)) by {
                assert(placed[count].index == it.index);
            }
            if same {
                assert(groups[groups.len() - 1].1.contains(k) <==> placed_at(
                    placed,
                    count,
                    k,
                    wanted,
                ));
                if last.1.contains(k) {
                    let a = choose|a: int| 0 <= a < last.1.len() && last.1[a] == k;
                    assert(group.1[a] == k);
                }
                assert(group.1[last.1.len() as int] == it.index);
                if group.1.contains(k) {
                    let a = choose|a: int| 0 <= a < group.1.len() && group.1[a] == k;
                    if a < last.1.len() {
                        assert(last.1[a] == k);
                    }
                }
            } else {
                assert(group.1[0] == it.index);
                if placed_at(placed, count, k, name) {
                    let j = choose|j: int|
                        0 <= j < count && (#[trigger] placed[j]).index == k && placed[j].name@
                            == name;
                    let at = choose|at: int| has_name(groups, placed[j].name@, at);
                    assert(kept[at] == groups[at]);
                }
            }
        }
    }
    assert forall|j: int| 0 <= j < count + 1 implies is_grouped(
        now,
        (#[trigger] placed[j]).name@,
    ) by {
        if j < count {
            let at = choose|at: int| has_name(groups, placed[j].name@, at);
            if at < kept.len() {
                assert(has_name(now, placed[j].name@, at));
            } else {
                assert(has_name(now, placed[j].name@, kept.len() as int));
            }
        } else {
            assert(has_name(now, placed[j].name@, kept.len() as int));
        }
    }
    assert forall|i: int| 0 <= i < now.len() implies (#[trigger] now[i]).1.len() > 0 by {
        if i < kept.len() {
            assert(now[i] == groups[i]);
        }
    }
    assert(now[now.len() - 1] == group);
    assert(swept(now, placed, count + 1));
}

/// Groups things by their names, in the order of the names; things without a name are in none.
pub fn group_by_name(names: &[Option<String>]) -> (groups: Vec<NameGroup>)
    ensures
        groups_names(views(groups@), name_views(names@)),
{
    let ghost all = name_views(names@);
    let mut placed: Vec<Placed> = Vec::new();
    let mut index: usize = 0;
    while index < names.len()
        invariant
            index <= names@.len(),
            all == name_views(names@),
            forall|i: int|
                0 <= i < placed@.len() ==> (#[trigger] placed@[i]).index < index
                    && all[placed@[i].index as int] == Some(placed@[i].name@) && placed@[i].rank
                    == 0,
            forall|i: int, j: int|
                #![trigger placed@[i], placed@[j]]
                0 <= i < j < placed@.len() ==> placed@[i].index < placed@[j].index,
            forall|k: int|
                0 <= k < index && #[trigger] all[k] is Some ==> exists|i: int|
                    0 <= i < placed@.len() && (#[trigger] placed@[i]).index == k,
        decreases names@.len() - index,
    {
        let ghost before = placed@;
        if let Some(name) = &names[index] {
            placed.push(Placed { name: name.clone(), rank: 0, index });
            assert(placed@[placed@.len() - 1].index == index);
        }
        assert forall|k: int| 0 <= k < index + 1 && #[trigger] all[k] is Some implies exists|i: int|
            0 <= i < placed@.len() && (#[trigger] placed@[i]).index == k by {
            if k < index {
                let i = choose|i: int| 0 <= i < before.len() && (#[trigger] before[i]).index == k;
                assert(placed@[i].index == k);
            }
        }
        index += 1;
    }
    let ghost before = placed@;
    let placed = sort(placed);
    proof {
        let known = Seq::new(all.len(), |k: int| match all[k] {
            Some(name) => name,
            None => Seq::empty(),
        });
        places_permute(before, placed@, known, Seq::new(all.len(), |k: int| 0i64));
    }
    let mut groups: Vec<NameGroup> = Vec::new();
    let mut at: usize = 0;
    assert(views(groups@) =~= Seq::empty());
    while at < placed.len()
        invariant
            at <= placed@.len(),
            sorted(placed@),
            forall|i: int, j: int|
                #![trigger placed@[i], placed@[j]]
                0 <= i < j < placed@.len() ==> placed@[i].index != placed@[j].index,
            forall|i: int| 0 <= i < placed@.len() ==> (#[trigger] placed@[i]).rank == 0,
            swept(views(groups@), placed@, at as int),
        decreases placed@.len() - at,
    {
        proof {
            sweep_further(views(groups@), placed@, at as int);
        }
        let ghost old_groups = views(groups@);
        let name = placed[at].name.as_str();
        let position: usize = placed[at].index;
        let same = groups.len() > 0 && same_text(groups[groups.len() - 1].name.as_str(), name);
        match groups.pop() {
            Some(group) => {
                let mut group = group;
                if same {
                    group.members.push(position);
                    groups.push(group);
                } else {
                    groups.push(group);
                    groups.push(NameGroup { name: placed[at].name.clone(), members: vec![position] });
                }
            },
            None => {
                groups.push(NameGroup { name: placed[at].name.clone(), members: vec![position] });
            },
        }
        proof {
            let it = placed@[at as int];
            let last = old_groups[old_groups.len() - 1];
            if old_groups.len() > 0 && last.0 == it.name@ {
                assert(views(groups@) =~= old_groups.drop_last().push(
                    (last.0, last.1.push(it.index)),
                ));
            } else {
                let group = (it.name@, seq![it.index]);
                assert(groups@[groups@.len() - 1].members@ =~= seq![it.index]);
                assert(views(groups@) =~= old_groups.push(group));
            }
        }
        at += 1;
    }
    proof {
        let found = views(groups@);
        assert forall|i: int| 0 <= i < found.len() implies holds_name(#[trigger] found[i], all) by {
            assert forall|k: usize| #[trigger] found[i].1.contains(k) <==> k < all.len() && all[k as int]
                == Some(found[i].0) by {
                assert(found[i].1.contains(k) <==> placed_at(
                    placed@,
                    placed@.len() as int,
                    k,
                    found[i].0,
                ));
                if placed_at(placed@, placed@.len() as int, k, found[i].0) {
                    let j = choose|j: int|
                        0 <= j < placed@.len() && (#[trigger] placed@[j]).index == k
                            && placed@[j].name@ == found[i].0;
                    assert(placed@.contains(placed@[j]));
                    assert(before.contains(placed@[j]));
                }
                if k < all.len() && all[k as int] == Some(found[i].0) {
                    let b = choose|b: int| 0 <= b < before.len() && (#[trigger] before[b]).index == k;
                    assert(before.contains(before[b]));
                    assert(placed@.contains(before[b]));
                    let j = choose|j: int| 0 <= j < placed@.len() && placed@[j] == before[b];
                    assert(placed@[j].index == k);
                }
            }
        }
        assert forall|k: int| 0 <= k < all.len() implies (#[trigger] all[k] matches Some(name)
            ==> is_grouped(found, name)) by {
            if let Some(name) = all[k] {
                let b = choose|b: int| 0 <= b < before.len() && (#[trigger] before[b]).index == k;
                assert(before.contains(before[b]));
                assert(placed@.contains(before[b]));
                let j = choose|j: int| 0 <= j < placed@.len() && placed@[j] == before[b];
                assert(placed@[j].name@ == name);
                let at = choose|at: int| has_name(found, placed@[j].name@, at);
                assert(has_name(found, name, at));
            }
        }
    }
    groups
}

proof fn same_members(left: Seq<usize>, right: Seq<usize>, count: int)
    requires
        increasing(left),
        increasing(right),
        forall|k: usize| #[trigger] left.contains(k) <==> right.contains(k),
        0 <= count <= left.len(),
        count <= right.len(),
        forall|i: int| 0 <= i < count ==> #[trigger] left[i] == right[i],
    ensures
        left == right,
    decreases left.len() - count,
{
    if count < left.len() {
        assert(left.contains(left[count]));
        let j = choose|j: int| 0 <= j < right.len() && right[j] == left[count];
        if j < count {
            assert(left[j] == right[j]);
        }
        assert(right.contains(right[count]));
        assert(left.contains(right[count]));
        let i = choose|i: int| 0 <= i < left.len() && left[i] == right[count];
        if i < count {
            assert(left[i] == right[i]);
        }
        if i > count && j > count {
            assert(left[count] < left[i]);
            assert(right[count] < right[j]);
        }
        same_members(left, right, count + 1);
    } else {
        if count < right.len() {
            assert(right.contains(right[count]));
            assert(left.contains(right[count]));
            let i = choose|i: int| 0 <= i < left.len() && left[i] == right[count];
            assert(left[i] == right[i]);
        }
        assert(left =~= right);
    }
}

/// The name of a group of things is that of a group in every grouping of them.
proof fn grouped_elsewhere(
    left: Seq<GroupModel>,
    right: Seq<GroupModel>,
    names: Seq<Option<Seq<char>>>,
    at: int,
) -> (other: int)
    requires
        groups_names(left, names),
        groups_names(right, names),
        0 <= at < left.len(),
    ensures
        has_name(right, left[at].0, other),
        right[other] == left[at],
{
    let group = left[at];
    assert(holds_name(group, names));
    let k = group.1[0];
    assert(group.1.contains(k));
    assert(names[k as int] == Some(group.0));
    assert(is_grouped(right, group.0));
    let other = choose|other: int| has_name(right, group.0, other);
    assert(holds_name(right[other], names));
    assert forall|k: usize| #[trigger] group.1.contains(k) <==> right[other].1.contains(k) by {}
    same_members(group.1, right[other].1, 0);
    other
}

/// Things have only one grouping by their names.
pub proof fn grouping_is_unique(
    left: Seq<GroupModel>,
    right: Seq<GroupModel>,
    names: Seq<Option<Seq<char>>>,
)
    requires
        groups_names(left, names),
        groups_names(right, names),
    ensures
        left == right,
{
    same_groups_from(left, right, names, 0);
}

proof fn same_groups_from(
    left: Seq<GroupModel>,
    right: Seq<GroupModel>,
    names: Seq<Option<Seq<char>>>,
    count: int,
)
    requires
        groups_names(left, names),
        groups_names(right, names),
        0 <= count <= left.len(),
        count <= right.len(),
        forall|i: int| 0 <= i < count ==> #[trigger] left[i] == right[i],
    ensures
        left == right,
    decreases left.len() - count,
{
    if count < left.len() {
        let j = grouped_elsewhere(left, right, names, count);
        if j < count {
            assert(left[j] == right[j]);
            assert(name_before(left[j].0, left[count].0));
        }
        let i = grouped_elsewhere(right, left, names, count);
        if i < count {
            assert(left[i] == right[i]);
            assert(name_before(right[i].0, right[count].0));
        }
        if i > count && j > count {
            assert(name_before(left[count].0, left[i].0));
            assert(name_before(right[count].0, right[j].0));
            names_are_ordered(left[count].0, left[i].0);
        }
        same_groups_from(left, right, names, count + 1);
    } else {
        if count < right.len() {
            let i = grouped_elsewhere(right, left, names, count);
            assert(left[i] == right[i]);
            assert(name_before(right[i].0, right[count].0));
        }
        assert(left =~= right);
    }
}

} // verus!
