//! Counts of stacks: frames are interned in a tree, so that stacks share their common callers.

use vstd::array::array_as_slice;
use vstd::prelude::*;
use vstd::utf8::encode_utf8;

use crate::sorting::{
    bytes_in_order, bytes_le, bytes_order, bytes_transitive,     lex_from, lex_le, lex_total, lex_transitive, same_items, sort, sorted, Ranked,
};
use crate::tables::{NameMap, TripleMap};

use crate::totals::{count_within_total, total, total_with_count};

verus! {

/// A frame of a stack: something that two numbers tell apart and put in order.
pub trait StackFrame: Copy {
    /// The two numbers of a frame.
    spec fn code(&self) -> (u64, u64);

    /// Gives the two numbers of a frame.
    fn frame_code(&self) -> (code: (u64, u64))
        ensures
            code == self.code(),
    ;

    proof fn code_tells_apart(left: Self, right: Self)
        requires
            left.code() == right.code(),
        ensures
            left == right,
    ;
}

impl StackFrame for u64 {
    open spec fn code(&self) -> (u64, u64) {
        (0, *self)
    }

    fn frame_code(&self) -> (code: (u64, u64)) {
        (0, *self)
    }

    proof fn code_tells_apart(left: u64, right: u64) {
    }
}

/// What tells one counted stack from another: process, command name, and frames from the root.
pub type StackKey<T> = (Option<u32>, Option<Seq<char>>, Seq<T>);

/// A frame below its caller.
#[derive(Clone, Debug, Eq, PartialEq)]
pub struct StackNode<T> {
    pub parent: Option<usize>,
    pub frame: T,
}

/// Whether every node stands behind its caller.
pub open spec fn callers_first<T>(nodes: Seq<StackNode<T>>) -> bool {
    forall|i: int|
        0 <= i < nodes.len() ==> ((#[trigger] nodes[i]).parent matches Some(parent) ==> parent < i)
}

/// Whether an optional node is one of the nodes.
pub open spec fn is_node<T>(nodes: Seq<StackNode<T>>, tail: Option<usize>) -> bool {
    tail matches Some(node) ==> node < nodes.len()
}

/// The frames from the root to a node.
pub open spec fn chain<T>(nodes: Seq<StackNode<T>>, tail: Option<usize>) -> Seq<T>
    decreases (match tail {
            Some(node) => node + 1,
            None => 0,
        }),
{
    match tail {
        None => Seq::empty(),
        Some(node) => if node < nodes.len() && (nodes[node as int].parent matches Some(parent)
            ==> parent < node) {
            chain(nodes, nodes[node as int].parent).push(nodes[node as int].frame)
        } else {
            Seq::empty()
        },
    }
}

/// An optional index as one number: zero for none.
pub open spec fn index_code(index: Option<usize>) -> u64 {
    match index {
        None => 0,
        Some(index) => (index + 1) as u64,
    }
}

/// The optional index that a number stands for.
pub open spec fn index_of_code(code: u64) -> Option<usize> {
    if code == 0 {
        None
    } else {
        Some((code - 1) as usize)
    }
}

/// An optional process as one number: zero for none.
pub open spec fn pid_code(pid: Option<u32>) -> u64 {
    match pid {
        None => 0,
        Some(pid) => (pid + 1) as u64,
    }
}

/// The optional process that a number stands for.
pub open spec fn pid_of_code(code: u64) -> Option<u32> {
    if code == 0 {
        None
    } else {
        Some((code - 1) as u32)
    }
}

/// The key under which a node is found: its caller and its frame.
pub open spec fn node_key<T: StackFrame>(parent: Option<usize>, frame: T) -> (u64, u64, u64) {
    (index_code(parent), frame.code().0, frame.code().1)
}

fn index_to_code(index: Option<usize>) -> (code: u64)
    requires
        index matches Some(i) ==> i < usize::MAX,
    ensures
        code == index_code(index),
{
    match index {
        None => 0,
        Some(index) => (index + 1) as u64,
    }
}

fn code_to_index(code: u64) -> (index: Option<usize>)
    requires
        code <= usize::MAX,
    ensures
        index == index_of_code(code),
{
    if code == 0 {
        None
    } else {
        Some((code - 1) as usize)
    }
}

fn pid_to_code(pid: Option<u32>) -> (code: u64)
    ensures
        code == pid_code(pid),
{
    match pid {
        None => 0,
        Some(pid) => pid as u64 + 1,
    }
}

fn code_to_pid(code: u64) -> (pid: Option<u32>)
    requires
        code <= 0x1_0000_0000,
    ensures
        pid == pid_of_code(code),
{
    if code == 0 {
        None
    } else {
        Some((code - 1) as u32)
    }
}

/// A stack with its count.
#[derive(Clone, Debug, Eq, PartialEq)]
pub struct CollapsedRawStack<T = u64> {
    pub pid: Option<u32>,
    pub comm: Option<String>,
    pub callchain: Vec<T>,
    pub count: u64,
}

impl<T> CollapsedRawStack<T> {
    /// What tells this stack from another.
    pub open spec fn key(&self) -> StackKey<T> {
        (
            self.pid,
            match self.comm {
                Some(comm) => Some(comm@),
                None => None,
            },
            self.callchain@,
        )
    }
}

/// The stacks counted so far.
#[derive(Debug)]
pub struct RawStackAccumulator<T = u64> {
    counts: TripleMap,
    nodes: Vec<StackNode<T>>,
    node_ids: TripleMap,
    comms: Vec<String>,
    comm_ids: NameMap,
}

impl<T: StackFrame> View for RawStackAccumulator<T> {
    type V = Map<StackKey<T>, u64>;

    closed spec fn view(&self) -> Map<StackKey<T>, u64> {
        Map::new(
            |key: StackKey<T>| exists|id: (u64, u64, u64)| self.names(id, key),
            |key: StackKey<T>| self.counts@[choose|id: (u64, u64, u64)| self.names(id, key)],
        )
    }
}

impl<T: StackFrame> RawStackAccumulator<T> {
    /// The stack that a triple of codes stands for.
    spec fn key_of(&self, id: (u64, u64, u64)) -> StackKey<T> {
        (
            pid_of_code(id.0),
            match index_of_code(id.1) {
                None => None,
                Some(comm) => Some(self.comms@[comm as int]@),
            },
            chain(self.nodes@, index_of_code(id.2)),
        )
    }

    /// Whether a triple of codes is counted and stands for a stack.
    spec fn names(&self, id: (u64, u64, u64), key: StackKey<T>) -> bool {
        self.counts@.dom().contains(id) && self.key_of(id) == key
    }

    /// Whether a triple of codes stands for some process, name and node.
    spec fn in_range(&self, id: (u64, u64, u64)) -> bool {
        id.0 <= 0x1_0000_0000 && id.1 <= self.comms@.len() && id.2 <= self.nodes@.len()
    }

    spec fn nodes_found(&self) -> bool {
        &&& self.nodes@.len() == self.nodes.len()
        &&& callers_first(self.nodes@)
        &&& forall|i: int|
            0 <= i < self.nodes@.len() ==> self.node_ids@.contains_pair(
                node_key((#[trigger] self.nodes@[i]).parent, self.nodes@[i].frame),
                i as u64,
            )
        &&& forall|key: (u64, u64, u64)| #[trigger]
            self.node_ids@.dom().contains(key) ==> {
                let node = self.node_ids@[key] as int;
                node < self.nodes@.len() && node_key(
                    self.nodes@[node].parent,
                    self.nodes@[node].frame,
                ) == key
            }
    }

    spec fn comms_found(&self) -> bool {
        &&& self.comms@.len() == self.comms.len()
        &&& forall|i: int|
            0 <= i < self.comms@.len() ==> self.comm_ids@.contains_pair(
                (#[trigger] self.comms@[i])@,
                i as u64,
            )
        &&& forall|name: Seq<char>| #[trigger]
            self.comm_ids@.dom().contains(name) ==> {
                let comm = self.comm_ids@[name] as int;
                comm < self.comms@.len() && self.comms@[comm]@ == name
            }
    }

    /// The tree holds each frame below each caller once, each name is held once, and every count
    /// belongs to a process, a name and a node that are held.
    pub closed spec fn wf(&self) -> bool {
        &&& self.nodes_found()
        &&& self.comms_found()
        &&& forall|id: (u64, u64, u64)| #[trigger]
            self.counts@.dom().contains(id) ==> self.in_range(id)
    }

    /// The number of interned frames.
    pub closed spec fn node_total(&self) -> nat {
        self.nodes@.len()
    }

    /// The number of interned names.
    pub closed spec fn comm_total(&self) -> nat {
        self.comms@.len()
    }

    /// An accumulator without stacks.
    #[must_use]
    pub fn new() -> (accumulator: Self)
        ensures
            accumulator.wf(),
            accumulator@ == Map::<StackKey<T>, u64>::empty(),
            accumulator.node_total() == 0,
            accumulator.comm_total() == 0,
    {
        let accumulator = RawStackAccumulator {
            counts: TripleMap::new(),
            nodes: Vec::new(),
            node_ids: TripleMap::new(),
            comms: Vec::new(),
            comm_ids: NameMap::new(),
        };
        assert(accumulator@ =~= Map::<StackKey<T>, u64>::empty());
        accumulator
    }

    /// Two nodes with the same frames from the root are one node.
    proof fn chain_tells_nodes_apart(&self, left: Option<usize>, right: Option<usize>)
        requires
            self.nodes_found(),
            is_node(self.nodes@, left),
            is_node(self.nodes@, right),
            chain(self.nodes@, left) == chain(self.nodes@, right),
        ensures
            left == right,
        decreases chain(self.nodes@, left).len(),
    {
        match (left, right) {
            (Some(l), Some(r)) => {
                let nodes = self.nodes@;
                let a = nodes[l as int];
                let b = nodes[r as int];
                assert(chain(nodes, left).last() == a.frame);
                assert(chain(nodes, right).last() == b.frame);
                assert(chain(nodes, left).drop_last() =~= chain(nodes, a.parent));
                assert(chain(nodes, right).drop_last() =~= chain(nodes, b.parent));
                self.chain_tells_nodes_apart(a.parent, b.parent);
                assert(node_key(a.parent, a.frame) == node_key(b.parent, b.frame));
            },
            (Some(l), None) => {
                assert(chain(self.nodes@, left).len() > 0);
            },
            (None, Some(r)) => {
                assert(chain(self.nodes@, right).len() > 0);
            },
            (None, None) => {},
        }
    }

    /// Two triples of codes that stand for one stack are one triple.
    proof fn key_tells_ids_apart(&self, left: (u64, u64, u64), right: (u64, u64, u64))
        requires
            self.wf(),
            self.in_range(left),
            self.in_range(right),
            self.key_of(left) == self.key_of(right),
        ensures
            left == right,
    {
        self.chain_tells_nodes_apart(index_of_code(left.2), index_of_code(right.2));
        if left.1 != 0 && right.1 != 0 {
            let l = (left.1 - 1) as int;
            let r = (right.1 - 1) as int;
            assert(self.comms@[l]@ == self.comms@[r]@);
            assert(self.comm_ids@.contains_pair(self.comms@[l]@, l as u64));
            assert(self.comm_ids@.contains_pair(self.comms@[r]@, r as u64));
        }
    }

    /// A counted triple's stack has the triple's count.
    proof fn counted(&self, id: (u64, u64, u64))
        requires
            self.wf(),
            self.counts@.dom().contains(id),
        ensures
            self@.contains_pair(self.key_of(id), self.counts@[id]),
    {
        let key = self.key_of(id);
        assert(self.names(id, key));
        let chosen = choose|other: (u64, u64, u64)| self.names(other, key);
        assert(self.names(chosen, key));
        self.key_tells_ids_apart(chosen, id);
    }

    /// Frames from the root do not change when nodes are added.
    proof fn chain_keeps(
        nodes: Seq<StackNode<T>>,
        more: Seq<StackNode<T>>,
        tail: Option<usize>,
    )
        requires
            callers_first(nodes),
            is_node(nodes, tail),
            nodes.len() <= more.len(),
            forall|i: int| 0 <= i < nodes.len() ==> nodes[i] == #[trigger] more[i],
        ensures
            chain(more, tail) == chain(nodes, tail),
        decreases (match tail {
                Some(node) => node + 1,
                None => 0,
            }),
    {
        if let Some(node) = tail {
            assert(nodes[node as int] == more[node as int]);
            Self::chain_keeps(nodes, more, nodes[node as int].parent);
        }
    }

    /// Interns the frames of a callchain below each other and gives the last one's node.
    fn intern_callchain(&mut self, callchain: &[T]) -> (tail: Option<usize>)
        requires
            old(self).wf(),
        ensures
            final(self).wf(),
            is_node(final(self).nodes@, tail),
            chain(final(self).nodes@, tail) == callchain@,
            final(self).counts@ == old(self).counts@,
            final(self).comms == old(self).comms,
            final(self).comm_ids@ == old(self).comm_ids@,
            old(self).nodes@.len() <= final(self).nodes@.len(),
            forall|i: int|
                0 <= i < old(self).nodes@.len() ==> old(self).nodes@[i] == #[trigger] final(self).nodes@[i],
    {
        let mut tail: Option<usize> = None;
        let mut index: usize = 0;
        assert(callchain@.subrange(0, 0) =~= Seq::empty());
        while index < callchain.len()
            invariant
                index <= callchain.len(),
                self.wf(),
                is_node(self.nodes@, tail),
                chain(self.nodes@, tail) == callchain@.subrange(0, index as int),
                self.counts@ == old(self).counts@,
                self.comms == old(self).comms,
                self.comm_ids@ == old(self).comm_ids@,
                old(self).nodes@.len() <= self.nodes@.len(),
                forall|i: int|
                    0 <= i < old(self).nodes@.len() ==> old(self).nodes@[i]
                        == #[trigger] self.nodes@[i],
            decreases callchain.len() - index,
        {
            let frame = callchain[index];
            let code = frame.frame_code();
            let key = (index_to_code(tail), code.0, code.1);
            assert(key == node_key(tail, frame));
            assert(callchain@.subrange(0, index + 1) =~= callchain@.subrange(0, index as int).push(
                frame,
            ));
            match self.node_ids.get(key) {
                Some(id) => {
                    assert(self.node_ids@.dom().contains(key));
                    let node: usize = id as usize;
                    proof {
                        let found = self.nodes@[node as int];
                        T::code_tells_apart(found.frame, frame);
                        assert(index_code(found.parent) == index_code(tail));
                        assert(found.parent == tail);
                    }
                    tail = Some(node);
                },
                None => {
                    let node: usize = self.nodes.len();
                    let ghost before = *self;
                    self.nodes.push(StackNode { parent: tail, frame });
                    self.node_ids.insert(key, node as u64);
                    proof {
                        Self::chain_keeps(before.nodes@, self.nodes@, tail);
                        assert(self.nodes@[node as int] == StackNode { parent: tail, frame });
                        assert(callers_first(self.nodes@)) by {
                            assert forall|i: int| 0 <= i < self.nodes@.len() implies (
                            (#[trigger] self.nodes@[i]).parent matches Some(parent) ==> parent
                                < i) by {
                                if i < node {
                                    assert(self.nodes@[i] == before.nodes@[i]);
                                }
                            }
                        }
                        assert forall|i: int| 0 <= i < self.nodes@.len() implies self.node_ids@.contains_pair(
                            node_key((#[trigger] self.nodes@[i]).parent, self.nodes@[i].frame),
                            i as u64,
                        ) by {
                            if i < node {
                                assert(self.nodes@[i] == before.nodes@[i]);
                                assert(before.node_ids@.contains_pair(
                                    node_key(before.nodes@[i].parent, before.nodes@[i].frame),
                                    i as u64,
                                ));
                            }
                        }
                        assert forall|other: (u64, u64, u64)| #[trigger]
                            self.node_ids@.dom().contains(other) implies {
                            let at = self.node_ids@[other] as int;
                            at < self.nodes@.len() && node_key(
                                self.nodes@[at].parent,
                                self.nodes@[at].frame,
                            ) == other
                        } by {
                            if other != key {
                                assert(before.node_ids@.dom().contains(other));
                                let at = before.node_ids@[other] as int;
                                assert(self.nodes@[at] == before.nodes@[at]);
                            }
                        }
                        assert forall|id: (u64, u64, u64)| #[trigger]
                            self.counts@.dom().contains(id) implies self.in_range(id) by {
                            assert(before.in_range(id));
                        }
                    }
                    tail = Some(node);
                },
            }
            index += 1;
        }
        assert(callchain@.subrange(0, index as int) =~= callchain@);
        tail
    }

    /// Interns a name and gives its index.
    fn intern_comm_ref(&mut self, comm: Option<&str>) -> (id: Option<usize>)
        requires
            old(self).wf(),
        ensures
            final(self).wf(),
            final(self).counts@ == old(self).counts@,
            final(self).nodes == old(self).nodes,
            final(self).node_ids@ == old(self).node_ids@,
            old(self).comms@.len() <= final(self).comms@.len(),
            forall|i: int|
                0 <= i < old(self).comms@.len() ==> old(self).comms@[i] == #[trigger] final(self).comms@[i],
            match (comm, id) {
                (Some(name), Some(id)) => id < final(self).comms@.len() && final(self).comms@[id as int]@ == name@,
                (None, None) => true,
                _ => false,
            },
    {
        let name = match comm {
            None => return None,
            Some(name) => name,
        };
        if let Some(id) = self.comm_ids.get(name) {
            assert(self.comm_ids@.dom().contains(name@));
            return Some(id as usize);
        }
        let id: usize = self.comms.len();
        let ghost before = *self;
        self.comms.push(name.to_owned());
        self.comm_ids.insert(name.to_owned(), id as u64);
        proof {
            assert forall|i: int| 0 <= i < self.comms@.len() implies self.comm_ids@.contains_pair(
                (#[trigger] self.comms@[i])@,
                i as u64,
            ) by {
                if i < id {
                    assert(self.comms@[i] == before.comms@[i]);
                    assert(before.comm_ids@.contains_pair(before.comms@[i]@, i as u64));
                }
            }
            assert forall|other: Seq<char>| #[trigger] self.comm_ids@.dom().contains(other) implies {
                let at = self.comm_ids@[other] as int;
                at < self.comms@.len() && self.comms@[at]@ == other
            } by {
                if other != name@ {
                    assert(before.comm_ids@.dom().contains(other));
                    let at = before.comm_ids@[other] as int;
                    assert(self.comms@[at] == before.comms@[at]);
                }
            }
            assert forall|id: (u64, u64, u64)| #[trigger] self.counts@.dom().contains(id) implies self.in_range(
            id) by {
                assert(before.in_range(id));
            }
        }
        Some(id)
    }

    /// Adds to the count of a stack. A count that would leave its range stays at the largest one.
    pub fn add_slice_with_borrowed_comm(
        &mut self,
        pid: Option<u32>,
        comm: Option<&str>,
        callchain: &[T],
        count: u64,
    )
        requires
            old(self).wf(),
        ensures
            final(self).wf(),
            final(self)@ == with_count(old(self)@, stack_key(pid, comm, callchain@), count),
    {
        let ghost start = *self;
        let comm_id: Option<usize> = self.intern_comm_ref(comm);
        let ghost named = *self;
        let tail: Option<usize> = self.intern_callchain(callchain);
        let ghost interned = *self;
        let id = (pid_to_code(pid), index_to_code(comm_id), index_to_code(tail));
        let ghost key = stack_key(pid, comm, callchain@);
        proof {
            assert(self.in_range(id));
            assert(self.key_of(id) == key) by {
                assert(pid_of_code(id.0) == pid);
                assert(index_of_code(id.1) == comm_id);
                assert(index_of_code(id.2) == tail);
            }
            assert forall|other: (u64, u64, u64)| start.in_range(other) implies interned.key_of(other)
                == start.key_of(other) by {
                Self::chain_keeps(start.nodes@, interned.nodes@, index_of_code(other.2));
                if other.1 != 0 {
                    let i = (other.1 - 1) as int;
                    assert(start.comms@[i] == named.comms@[i]);
                }
            }
        }
        let before: u64 = match self.counts.get(id) {
            Some(before) => before,
            None => 0,
        };
        let total: u64 = before.saturating_add(count);
        self.counts.insert(id, total);
        proof {
            assert forall|other: (u64, u64, u64)| #[trigger] self.counts@.dom().contains(other) implies self.in_range(
            other) by {
                if other != id {
                    assert(start.counts@.dom().contains(other));
                    assert(interned.in_range(other));
                }
            }
            assert(self.wf());
            assert forall|other: (u64, u64, u64)| self.key_of(other) == interned.key_of(other) by {
            }
            if start.counts@.dom().contains(id) {
                assert(start.in_range(id));
                start.counted(id);
            } else if start@.dom().contains(key) {
                let other = choose|other: (u64, u64, u64)| start.names(other, key);
                assert(start.in_range(other));
                assert(interned.key_of(other) == key);
                interned.key_tells_ids_apart(other, id);
            }
            let expected = with_count(start@, key, count);
            self.counted(id);
            assert forall|k: StackKey<T>| #[trigger] self@.dom().contains(k) implies expected.dom().contains(k)
                && self@[k] == expected[k] by {
                let other = choose|other: (u64, u64, u64)| self.names(other, k);
                assert(self.names(other, k));
                self.counted(other);
                if other != id {
                    assert(start.counts@.dom().contains(other));
                    assert(start.in_range(other));
                    start.counted(other);
                    if k == key {
                        self.key_tells_ids_apart(other, id);
                    }
                }
            }
            assert forall|k: StackKey<T>| #[trigger] expected.dom().contains(k) implies self@.dom().contains(
                k,
            ) by {
                if k != key {
                    assert(start@.dom().contains(k));
                    let other = choose|other: (u64, u64, u64)| start.names(other, k);
                    assert(start.names(other, k));
                    assert(start.in_range(other));
                    assert(self.names(other, k));
                } else {
                    assert(self.names(id, key));
                }
            }
            assert(self@.dom() =~= expected.dom());
            assert(self@ =~= expected);
        }
    }

    /// Adds to the count of a stack under an owned name.
    pub fn add_slice_with_comm(
        &mut self,
        pid: Option<u32>,
        comm: Option<String>,
        callchain: &[T],
        count: u64,
    )
        requires
            old(self).wf(),
        ensures
            final(self).wf(),
            final(self)@ == with_count(old(self)@, owned_key(pid, comm, callchain@), count),
    {
        match comm {
            Some(name) => self.add_slice_with_borrowed_comm(
                pid,
                Some(name.as_str()),
                callchain,
                count,
            ),
            None => self.add_slice_with_borrowed_comm(pid, None, callchain, count),
        }
    }

    /// Adds to the count of a stack without a name.
    pub fn add_slice(&mut self, pid: Option<u32>, callchain: &[T], count: u64)
        requires
            old(self).wf(),
        ensures
            final(self).wf(),
            final(self)@ == with_count(old(self)@, (pid, None, callchain@), count),
    {
        self.add_slice_with_borrowed_comm(pid, None, callchain, count);
    }

    /// Adds to the count of an owned stack under an owned name.
    pub fn add_vec_with_comm(
        &mut self,
        pid: Option<u32>,
        comm: Option<String>,
        callchain: Vec<T>,
        count: u64,
    )
        requires
            old(self).wf(),
        ensures
            final(self).wf(),
            final(self)@ == with_count(old(self)@, owned_key(pid, comm, callchain@), count),
    {
        self.add_slice_with_comm(pid, comm, callchain.as_slice(), count);
    }

    /// Adds to the count of an owned stack without a name.
    pub fn add_vec(&mut self, pid: Option<u32>, callchain: Vec<T>, count: u64)
        requires
            old(self).wf(),
        ensures
            final(self).wf(),
            final(self)@ == with_count(old(self)@, (pid, None, callchain@), count),
    {
        self.add_slice(pid, callchain.as_slice(), count);
    }

    /// Adds to the count of a stack of a known depth without a name.
    pub fn add<const N: usize>(&mut self, pid: Option<u32>, callchain: [T; N], count: u64)
        requires
            old(self).wf(),
        ensures
            final(self).wf(),
            final(self)@ == with_count(old(self)@, (pid, None, callchain@), count),
    {
        self.add_slice(pid, array_as_slice(&callchain), count);
    }

    /// The number of interned frames.
    pub fn interned_node_count(&self) -> (count: usize)
        ensures
            count == self.node_total(),
    {
        self.nodes.len()
    }

    /// The number of interned names.
    pub fn interned_comm_count(&self) -> (count: usize)
        ensures
            count == self.comm_total(),
    {
        self.comms.len()
    }
}

/// The key of a stack whose name is borrowed.
pub open spec fn stack_key<T>(pid: Option<u32>, comm: Option<&str>, callchain: Seq<T>) -> StackKey<
    T,
> {
    (
        pid,
        match comm {
            Some(name) => Some(name@),
            None => None,
        },
        callchain,
    )
}

/// The key of a stack whose name is owned.
pub open spec fn owned_key<T>(
    pid: Option<u32>,
    comm: Option<String>,
    callchain: Seq<T>,
) -> StackKey<T> {
    (
        pid,
        match comm {
            Some(name) => Some(name@),
            None => None,
        },
        callchain,
    )
}

/// Counts with `count` added to that of one stack, up to the largest count there is.
pub open spec fn with_count<T>(
    counts: Map<StackKey<T>, u64>,
    key: StackKey<T>,
    count: u64,
) -> Map<StackKey<T>, u64> {
    let before = if counts.dom().contains(key) {
        counts[key] as int
    } else {
        0
    };
    let total = before + count;
    counts.insert(
        key,
        if total > u64::MAX {
            u64::MAX
        } else {
            total as u64
        },
    )
}

// ---------------------------------------------------------------------------
// Order
// ---------------------------------------------------------------------------

/// The place of an optional process: none comes first.
pub open spec fn pid_rank(pid: Option<u32>) -> int {
    match pid {
        None => -1,
        Some(pid) => pid as int,
    }
}

/// The place of an optional node: none comes first.
pub open spec fn tail_rank(tail: Option<usize>) -> int {
    match tail {
        None => -1,
        Some(node) => node as int,
    }
}

/// Whether an optional name comes no later than another: none comes first, names go by their
/// bytes.
pub open spec fn comm_le(left: Option<Seq<char>>, right: Option<Seq<char>>) -> bool {
    match (left, right) {
        (None, _) => true,
        (Some(_), None) => false,
        (Some(left), Some(right)) => bytes_le(encode_utf8(left), encode_utf8(right)),
    }
}

/// Names are put in some order, and only equal ones in both.
proof fn comm_order(left: Option<Seq<char>>, right: Option<Seq<char>>)
    ensures
        comm_le(left, right) || comm_le(right, left),
        comm_le(left, right) && comm_le(right, left) ==> left == right,
        left == right ==> comm_le(left, right),
{
    broadcast use vstd::utf8::encode_utf8_decode_utf8;

    if let (Some(l), Some(r)) = (left, right) {
        bytes_order(encode_utf8(l), encode_utf8(r));
        if encode_utf8(l) == encode_utf8(r) {
            assert(l == vstd::utf8::decode_utf8(encode_utf8(l)));
            assert(r == vstd::utf8::decode_utf8(encode_utf8(r)));
        }
    }
}

proof fn comm_transitive(a: Option<Seq<char>>, b: Option<Seq<char>>, c: Option<Seq<char>>)
    requires
        comm_le(a, b),
        comm_le(b, c),
    ensures
        comm_le(a, c),
{
    if let (Some(x), Some(y)) = (a, b) {
        if let Some(z) = c {
            bytes_transitive(encode_utf8(x), encode_utf8(y), encode_utf8(z));
        }
    }
}

fn pids_in_order(left: Option<u32>, right: Option<u32>) -> (ordered: bool)
    ensures
        ordered == (pid_rank(left) <= pid_rank(right)),
{
    match (left, right) {
        (None, _) => true,
        (Some(_), None) => false,
        (Some(left), Some(right)) => left <= right,
    }
}

fn tails_in_order(left: Option<usize>, right: Option<usize>) -> (ordered: bool)
    ensures
        ordered == (tail_rank(left) <= tail_rank(right)),
{
    match (left, right) {
        (None, _) => true,
        (Some(_), None) => false,
        (Some(left), Some(right)) => left <= right,
    }
}

fn comms_in_order(left: Option<&str>, right: Option<&str>) -> (ordered: bool)
    ensures
        ordered == comm_le(name_view(left), name_view(right)),
{
    match (left, right) {
        (None, _) => true,
        (Some(_), None) => false,
        (Some(left), Some(right)) => bytes_in_order(left.as_bytes(), right.as_bytes()),
    }
}

/// The characters of an optional name.
pub open spec fn name_view(name: Option<&str>) -> Option<Seq<char>> {
    match name {
        Some(name) => Some(name@),
        None => None,
    }
}

/// The place of each frame of a stack.
pub open spec fn frame_ranks<T: StackFrame>(frames: Seq<T>) -> Seq<int> {
    Seq::new(
        frames.len(),
        |i: int| frames[i].code().0 * 0x1_0000_0000_0000_0000 + frames[i].code().1,
    )
}

fn frames_in_order<T: StackFrame>(left: &[T], right: &[T]) -> (ordered: bool)
    ensures
        ordered == lex_le(frame_ranks(left@), frame_ranks(right@)),
{
    let mut at: usize = 0;
    let ghost l = frame_ranks(left@);
    let ghost r = frame_ranks(right@);
    while at < left.len() && at < right.len()
        invariant
            at <= left.len(),
            at <= right.len(),
            l == frame_ranks(left@),
            r == frame_ranks(right@),
            lex_le(l, r) == lex_from(l, r, at as int),
        decreases left.len() - at,
    {
        let a = left[at].frame_code();
        let b = right[at].frame_code();
        if a.0 != b.0 {
            return a.0 < b.0;
        }
        if a.1 != b.1 {
            return a.1 < b.1;
        }
        at += 1;
    }
    at >= left.len()
}

impl<T: StackFrame> Ranked for CollapsedRawStack<T> {
    /// Stacks go by process, then by name, then by their frames from the root.
    open spec fn before(&self, other: &Self) -> bool {
        let left = self.key();
        let right = other.key();
        if left.0 != right.0 {
            pid_rank(left.0) < pid_rank(right.0)
        } else if left.1 != right.1 {
            comm_le(left.1, right.1)
        } else {
            lex_le(frame_ranks(left.2), frame_ranks(right.2))
        }
    }

    fn in_order(&self, other: &Self) -> (ordered: bool) {
        proof {
            comm_order(self.key().1, other.key().1);
            comm_order(other.key().1, self.key().1);
        }
        let left = match &self.comm {
            Some(name) => Some(name.as_str()),
            None => None,
        };
        let right = match &other.comm {
            Some(name) => Some(name.as_str()),
            None => None,
        };
        if !pids_in_order(other.pid, self.pid) {
            return true;
        }
        if !pids_in_order(self.pid, other.pid) {
            return false;
        }
        if !comms_in_order(right, left) {
            return true;
        }
        if !comms_in_order(left, right) {
            return false;
        }
        frames_in_order(self.callchain.as_slice(), other.callchain.as_slice())
    }

    proof fn order_is_total(left: &Self, right: &Self) {
        comm_order(left.key().1, right.key().1);
        lex_total(frame_ranks(left.key().2), frame_ranks(right.key().2));
    }

    proof fn order_is_transitive(a: &Self, b: &Self, c: &Self) {
        if comm_le(a.key().1, b.key().1) && comm_le(b.key().1, c.key().1) {
            comm_transitive(a.key().1, b.key().1, c.key().1);
        }
        comm_order(a.key().1, b.key().1);
        comm_order(b.key().1, c.key().1);
        comm_order(a.key().1, c.key().1);
        if lex_le(frame_ranks(a.key().2), frame_ranks(b.key().2)) && lex_le(
            frame_ranks(b.key().2),
            frame_ranks(c.key().2),
        ) {
            lex_transitive(
                frame_ranks(a.key().2),
                frame_ranks(b.key().2),
                frame_ranks(c.key().2),
            );
        }
    }
}

// ---------------------------------------------------------------------------
// Entries
// ---------------------------------------------------------------------------

/// One counted stack, its frames still in the tree.
#[derive(Clone, Copy, Debug)]
pub struct RawStackEntryRef<'a, T> {
    pid: Option<u32>,
    comm: Option<&'a str>,
    tail: Option<usize>,
    count: u64,
    nodes: &'a [StackNode<T>],
}

/// The frames of a stack that have not been taken yet, from the leaf to the root.
#[derive(Clone, Copy, Debug)]
pub struct RawStackFrameIter<'a, T> {
    nodes: &'a [StackNode<T>],
    current: Option<usize>,
}

impl<'a, T> RawStackFrameIter<'a, T> {
    /// Whether the frames lead to a root.
    pub closed spec fn wf(&self) -> bool {
        callers_first(self.nodes@) && is_node(self.nodes@, self.current)
    }

    /// The frames that are left, from the root.
    pub closed spec fn left(&self) -> Seq<T> {
        chain(self.nodes@, self.current)
    }

    /// Takes the frame nearest to the leaf.
    pub fn next(&mut self) -> (frame: Option<&'a T>)
        requires
            old(self).wf(),
        ensures
            final(self).wf(),
            match frame {
                Some(frame) => old(self).left().len() > 0 && *frame == old(self).left().last()
                    && final(self).left() == old(self).left().drop_last(),
                None => old(self).left().len() == 0 && final(self).left() == old(self).left(),
            },
    {
        match self.current {
            None => None,
            Some(node) => {
                let entry = &self.nodes[node];
                let ghost before = self.left();
                self.current = entry.parent;
                assert(before.drop_last() =~= self.left());
                Some(&entry.frame)
            },
        }
    }
}

impl<'a, T: Copy> RawStackFrameIter<'a, T> {
    /// All frames that are left, from the leaf to the root.
    pub fn to_vec(&self) -> (frames: Vec<T>)
        requires
            self.wf(),
        ensures
            frames@ == self.left().reverse(),
    {
        let mut rest = RawStackFrameIter { nodes: self.nodes, current: self.current };
        let mut frames: Vec<T> = Vec::new();
        let ghost all = self.left();
        assert(frames@ =~= all.subrange(all.len() as int, all.len() as int).reverse());
        while rest.current.is_some()
            invariant
                rest.wf(),
                all == self.left(),
                rest.nodes == self.nodes,
                rest.left().len() <= all.len(),
                rest.left() == all.subrange(0, rest.left().len() as int),
                frames@ == all.subrange(rest.left().len() as int, all.len() as int).reverse(),
            decreases rest.left().len(),
        {
            let ghost before = rest.left();
            let node: usize = rest.current.unwrap();
            frames.push(rest.nodes[node].frame);
            rest.current = rest.nodes[node].parent;
            proof {
                assert(before.drop_last() =~= rest.left());
                let n = rest.left().len() as int;
                assert(before == all.subrange(0, n + 1));
                assert(before.last() == all[n]);
                assert(frames@ =~= all.subrange(n, all.len() as int).reverse());
                assert(rest.left() =~= all.subrange(0, n));
            }
        }
        assert(all.subrange(0, all.len() as int) =~= all);
        frames
    }
}

impl<'a, T> RawStackEntryRef<'a, T> {
    /// Whether the frames lead to a root.
    pub closed spec fn wf(&self) -> bool {
        callers_first(self.nodes@) && is_node(self.nodes@, self.tail)
    }

    /// What tells this stack from another.
    pub closed spec fn key(&self) -> StackKey<T> {
        (self.pid, name_view(self.comm), chain(self.nodes@, self.tail))
    }

    /// How often the stack was counted.
    pub closed spec fn weight(&self) -> u64 {
        self.count
    }

    /// The place of the stack's leaf among all interned frames.
    pub closed spec fn place(&self) -> int {
        tail_rank(self.tail)
    }

    /// The process.
    #[must_use]
    pub fn pid(self) -> (pid: Option<u32>)
        ensures
            pid == self.key().0,
    {
        self.pid
    }

    /// The command name.
    #[must_use]
    pub fn comm(self) -> (comm: Option<&'a str>)
        ensures
            name_view(comm) == self.key().1,
    {
        self.comm
    }

    /// How often the stack was counted.
    #[must_use]
    pub fn count(self) -> (count: u64)
        ensures
            count == self.weight(),
    {
        self.count
    }

    /// The frames from the leaf to the root, one at a time.
    #[must_use]
    pub fn frames_leaf_to_root(self) -> (frames: RawStackFrameIter<'a, T>)
        requires
            self.wf(),
        ensures
            frames.wf(),
            frames.left() == self.key().2,
    {
        RawStackFrameIter { nodes: self.nodes, current: self.tail }
    }
}

/// Collects the frames from the root to a node.
fn rebuild_callchain<T: Copy>(nodes: &[StackNode<T>], tail: Option<usize>) -> (callchain: Vec<T>)
    requires
        callers_first(nodes@),
        is_node(nodes@, tail),
    ensures
        callchain@ == chain(nodes@, tail),
{
    let upwards = RawStackFrameIter { nodes, current: tail }.to_vec();
    let mut callchain: Vec<T> = Vec::with_capacity(upwards.len());
    let mut left: usize = upwards.len();
    let ghost all = chain(nodes@, tail);
    while left > 0
        invariant
            left <= upwards.len(),
            upwards@ == all.reverse(),
            callchain@ == all.subrange(0, upwards@.len() - left),
        decreases left,
    {
        left -= 1;
        callchain.push(upwards[left]);
        assert(callchain@ =~= all.subrange(0, upwards@.len() - left));
    }
    assert(all.subrange(0, all.len() as int) =~= all);
    callchain
}

impl<'a, T: Copy> RawStackEntryRef<'a, T> {
    /// The frames from the root, collected into `scratch`.
    pub fn callchain<'b>(&self, scratch: &'b mut Vec<T>) -> (frames: &'b [T])
        requires
            self.wf(),
        ensures
            frames@ == self.key().2,
            final(scratch)@ == self.key().2,
    {
        *scratch = rebuild_callchain(self.nodes, self.tail);
        scratch.as_slice()
    }
}

impl<'a, T> Ranked for RawStackEntryRef<'a, T> {
    /// Entries go by process, then by name, then by the place of their leaf.
    open spec fn before(&self, other: &Self) -> bool {
        if self.key().0 != other.key().0 {
            pid_rank(self.key().0) < pid_rank(other.key().0)
        } else if self.key().1 != other.key().1 {
            comm_le(self.key().1, other.key().1)
        } else {
            self.place() <= other.place()
        }
    }

    fn in_order(&self, other: &Self) -> (ordered: bool) {
        proof {
            comm_order(self.key().1, other.key().1);
            comm_order(other.key().1, self.key().1);
        }
        if !pids_in_order(other.pid, self.pid) {
            return true;
        }
        if !pids_in_order(self.pid, other.pid) {
            return false;
        }
        if !comms_in_order(other.comm, self.comm) {
            return true;
        }
        if !comms_in_order(self.comm, other.comm) {
            return false;
        }
        tails_in_order(self.tail, other.tail)
    }

    proof fn order_is_total(left: &Self, right: &Self) {
        comm_order(left.key().1, right.key().1);
    }

    proof fn order_is_transitive(a: &Self, b: &Self, c: &Self) {
        if comm_le(a.key().1, b.key().1) && comm_le(b.key().1, c.key().1) {
            comm_transitive(a.key().1, b.key().1, c.key().1);
        }
        comm_order(a.key().1, b.key().1);
        comm_order(b.key().1, c.key().1);
        comm_order(a.key().1, c.key().1);
    }
}

/// Whether entries list every counted stack exactly once, with its count.
pub open spec fn lists_entries<'a, T>(
    entries: Seq<RawStackEntryRef<'a, T>>,
    counts: Map<StackKey<T>, u64>,
) -> bool {
    &&& forall|i: int|
        0 <= i < entries.len() ==> (#[trigger] entries[i]).wf() && counts.contains_pair(
            entries[i].key(),
            entries[i].weight(),
        )
    &&& forall|i: int, j: int|
        #![trigger entries[i], entries[j]]
        0 <= i < j < entries.len() ==> entries[i].key() != entries[j].key()
    &&& forall|key: StackKey<T>| #[trigger]
        counts.dom().contains(key) ==> exists|i: int|
            0 <= i < entries.len() && (#[trigger] entries[i]).key() == key
}

/// Whether collapsed stacks list every counted stack exactly once, with its count.
pub open spec fn lists_stacks<T>(
    stacks: Seq<CollapsedRawStack<T>>,
    counts: Map<StackKey<T>, u64>,
) -> bool {
    &&& forall|i: int|
        0 <= i < stacks.len() ==> counts.contains_pair(
            (#[trigger] stacks[i]).key(),
            stacks[i].count,
        )
    &&& forall|i: int, j: int|
        #![trigger stacks[i], stacks[j]]
        0 <= i < j < stacks.len() ==> stacks[i].key() != stacks[j].key()
    &&& forall|key: StackKey<T>| #[trigger]
        counts.dom().contains(key) ==> exists|i: int|
            0 <= i < stacks.len() && (#[trigger] stacks[i]).key() == key
}

impl<T: StackFrame> RawStackAccumulator<T> {
    /// The counted stacks, in no particular order.
    #[must_use]
    pub fn entries(&self) -> (entries: Vec<RawStackEntryRef<'_, T>>)
        requires
            self.wf(),
        ensures
            lists_entries(entries@, self@),
    {
        let counts = self.counts.entries();
        let mut entries: Vec<RawStackEntryRef<'_, T>> = Vec::with_capacity(counts.len());
        let mut index: usize = 0;
        while index < counts.len()
            invariant
                self.wf(),
                index <= counts@.len(),
                entries@.len() == index,
                forall|i: int, j: int| 0 <= i < j < counts@.len() ==> counts@[i].0 != counts@[j].0,
                forall|i: int|
                    0 <= i < counts@.len() ==> self.counts@.contains_pair(
                        (#[trigger] counts@[i]).0,
                        counts@[i].1,
                    ),
                forall|i: int|
                    0 <= i < index ==> (#[trigger] entries@[i]).wf() && entries@[i].key()
                        == self.key_of(counts@[i].0) && entries@[i].weight() == counts@[i].1,
            decreases counts@.len() - index,
        {
            let (id, count) = counts[index];
            assert(self.counts@.contains_pair(counts@[index as int].0, counts@[index as int].1));
            assert(self.in_range(id));
            let comm: Option<&str> = match code_to_index(id.1) {
                Some(comm) => Some(self.comms[comm].as_str()),
                None => None,
            };
            entries.push(
                RawStackEntryRef {
                    pid: code_to_pid(id.0),
                    comm,
                    tail: code_to_index(id.2),
                    count,
                    nodes: self.nodes.as_slice(),
                },
            );
            index += 1;
        }
        proof {
            assert forall|i: int| 0 <= i < entries@.len() implies (#[trigger] entries@[i]).wf()
                && self@.contains_pair(entries@[i].key(), entries@[i].weight()) by {
                assert(self.counts@.contains_pair(counts@[i].0, counts@[i].1));
                self.counted(counts@[i].0);
            }
            assert forall|i: int, j: int|
                #![trigger entries@[i], entries@[j]]
                0 <= i < j < entries@.len() implies entries@[i].key() != entries@[j].key() by {
                assert(self.counts@.contains_pair(counts@[i].0, counts@[i].1));
                assert(self.counts@.contains_pair(counts@[j].0, counts@[j].1));
                if entries@[i].key() == entries@[j].key() {
                    self.key_tells_ids_apart(counts@[i].0, counts@[j].0);
                }
            }
            assert forall|key: StackKey<T>| #[trigger] self@.dom().contains(key) implies exists|
                i: int,
            | 0 <= i < entries@.len() && (#[trigger] entries@[i]).key() == key by {
                let id = choose|id: (u64, u64, u64)| self.names(id, key);
                assert(self.names(id, key));
                let i = choose|i: int| 0 <= i < counts@.len() && (#[trigger] counts@[i]).0 == id;
                assert(entries@[i].key() == key);
            }
        }
        entries
    }

    /// The counted stacks by process, name and the place of their leaf.
    #[must_use]
    pub fn sorted_entries(&self) -> (entries: Vec<RawStackEntryRef<'_, T>>)
        requires
            self.wf(),
        ensures
            lists_entries(entries@, self@),
            sorted(entries@),
    {
        let entries = self.entries();
        let ghost unsorted = entries@;
        let ordered = sort(entries);
        proof {
            sorted_entries_list_the_same(unsorted, ordered@, self@);
        }
        ordered
    }

    /// The counted stacks by process, name and frames.
    #[must_use]
    pub fn into_collapsed(self) -> (stacks: Vec<CollapsedRawStack<T>>)
        requires
            self.wf(),
        ensures
            lists_stacks(stacks@, self@),
            sorted(stacks@),
    {
        let entries = self.entries();
        let mut stacks: Vec<CollapsedRawStack<T>> = Vec::with_capacity(entries.len());
        let mut index: usize = 0;
        while index < entries.len()
            invariant
                index <= entries@.len(),
                lists_entries(entries@, self@),
                stacks@.len() == index,
                forall|i: int|
                    0 <= i < index ==> (#[trigger] stacks@[i]).key() == entries@[i].key()
                        && stacks@[i].count == entries@[i].weight(),
            decreases entries@.len() - index,
        {
            let entry = entries[index];
            assert(entry == entries@[index as int] && entry.wf());
            let comm = match entry.comm {
                Some(name) => Some(name.to_owned()),
                None => None,
            };
            let stack = CollapsedRawStack {
                pid: entry.pid,
                comm,
                callchain: rebuild_callchain(entry.nodes, entry.tail),
                count: entry.count,
            };
            assert(stack.key() == entry.key());
            stacks.push(stack);
            index += 1;
        }
        assert(lists_stacks(stacks@, self@)) by {
            assert forall|i: int| 0 <= i < stacks@.len() implies self@.contains_pair(
                (#[trigger] stacks@[i]).key(),
                stacks@[i].count,
            ) by {
                assert(entries@[i].wf());
            }
            assert forall|i: int, j: int|
                #![trigger stacks@[i], stacks@[j]]
                0 <= i < j < stacks@.len() implies stacks@[i].key() != stacks@[j].key() by {
                assert(entries@[i].key() != entries@[j].key());
            }
            assert forall|key: StackKey<T>| #[trigger] self@.dom().contains(key) implies exists|
                i: int,
            | 0 <= i < stacks@.len() && (#[trigger] stacks@[i]).key() == key by {
                let i = choose|i: int| 0 <= i < entries@.len() && (#[trigger] entries@[i]).key() == key;
                assert(stacks@[i].key() == key);
            }
        }
        let ghost unsorted = stacks@;
        let ordered = sort(stacks);
        proof {
            sorted_stacks_list_the_same(unsorted, ordered@, self@);
        }
        ordered
    }
}

/// Items that were distinct before a reordering are distinct after it.
proof fn reordering_keeps_distinct<A>(unsorted: Seq<A>, ordered: Seq<A>)
    requires
        unsorted.to_multiset() == ordered.to_multiset(),
        unsorted.no_duplicates(),
    ensures
        ordered.no_duplicates(),
{
    unsorted.lemma_multiset_has_no_duplicates();
    ordered.lemma_multiset_has_no_duplicates_conv();
}

proof fn sorted_entries_list_the_same<'a, T>(
    unsorted: Seq<RawStackEntryRef<'a, T>>,
    ordered: Seq<RawStackEntryRef<'a, T>>,
    counts: Map<StackKey<T>, u64>,
)
    requires
        lists_entries(unsorted, counts),
        unsorted.to_multiset() == ordered.to_multiset(),
    ensures
        lists_entries(ordered, counts),
{
    same_items(unsorted, ordered);
    assert(unsorted.no_duplicates());
    reordering_keeps_distinct(unsorted, ordered);
    assert forall|i: int| 0 <= i < ordered.len() implies (#[trigger] ordered[i]).wf()
        && counts.contains_pair(ordered[i].key(), ordered[i].weight()) by {
        assert(ordered.contains(ordered[i]));
        let j = choose|j: int| 0 <= j < unsorted.len() && unsorted[j] == ordered[i];
        assert(unsorted[j].wf());
    }
    assert forall|i: int, j: int|
        #![trigger ordered[i], ordered[j]]
        0 <= i < j < ordered.len() implies ordered[i].key() != ordered[j].key() by {
        assert(ordered.contains(ordered[i]) && ordered.contains(ordered[j]));
        let a = choose|a: int| 0 <= a < unsorted.len() && unsorted[a] == ordered[i];
        let b = choose|b: int| 0 <= b < unsorted.len() && unsorted[b] == ordered[j];
        assert(unsorted[a].key() != unsorted[b].key() || a == b);
    }
    assert forall|key: StackKey<T>| #[trigger] counts.dom().contains(key) implies exists|i: int|
        0 <= i < ordered.len() && (#[trigger] ordered[i]).key() == key by {
        let j = choose|j: int| 0 <= j < unsorted.len() && (#[trigger] unsorted[j]).key() == key;
        assert(unsorted.contains(unsorted[j]));
        assert(ordered.contains(unsorted[j]));
        let i = choose|i: int| 0 <= i < ordered.len() && ordered[i] == unsorted[j];
        assert(ordered[i].key() == key);
    }
}

proof fn sorted_stacks_list_the_same<T>(
    unsorted: Seq<CollapsedRawStack<T>>,
    ordered: Seq<CollapsedRawStack<T>>,
    counts: Map<StackKey<T>, u64>,
)
    requires
        lists_stacks(unsorted, counts),
        unsorted.to_multiset() == ordered.to_multiset(),
    ensures
        lists_stacks(ordered, counts),
{
    same_items(unsorted, ordered);
    assert(unsorted.no_duplicates());
    reordering_keeps_distinct(unsorted, ordered);
    assert forall|i: int| 0 <= i < ordered.len() implies counts.contains_pair(
        (#[trigger] ordered[i]).key(),
        ordered[i].count,
    ) by {
        assert(ordered.contains(ordered[i]));
        let j = choose|j: int| 0 <= j < unsorted.len() && unsorted[j] == ordered[i];
        assert(counts.contains_pair(unsorted[j].key(), unsorted[j].count));
    }
    assert forall|i: int, j: int|
        #![trigger ordered[i], ordered[j]]
        0 <= i < j < ordered.len() implies ordered[i].key() != ordered[j].key() by {
        assert(ordered.contains(ordered[i]) && ordered.contains(ordered[j]));
        let a = choose|a: int| 0 <= a < unsorted.len() && unsorted[a] == ordered[i];
        let b = choose|b: int| 0 <= b < unsorted.len() && unsorted[b] == ordered[j];
        assert(unsorted[a].key() != unsorted[b].key() || a == b);
    }
    assert forall|key: StackKey<T>| #[trigger] counts.dom().contains(key) implies exists|i: int|
        0 <= i < ordered.len() && (#[trigger] ordered[i]).key() == key by {
        let j = choose|j: int| 0 <= j < unsorted.len() && (#[trigger] unsorted[j]).key() == key;
        assert(unsorted.contains(unsorted[j]));
        assert(ordered.contains(unsorted[j]));
        let i = choose|i: int| 0 <= i < ordered.len() && ordered[i] == unsorted[j];
        assert(ordered[i].key() == key);
    }
}

impl<T: StackFrame> Default for RawStackAccumulator<T> {
    fn default() -> (accumulator: Self)
        ensures
            accumulator.wf(),
            accumulator@ == Map::<StackKey<T>, u64>::empty(),
    {
        Self::new()
    }
}

// ---------------------------------------------------------------------------
// Laws
// ---------------------------------------------------------------------------

/// The order in which stacks are counted makes no difference.
pub proof fn counting_commutes<T>(
    counts: Map<StackKey<T>, u64>,
    first: StackKey<T>,
    first_count: u64,
    second: StackKey<T>,
    second_count: u64,
)
    ensures
        with_count(with_count(counts, first, first_count), second, second_count) == with_count(
            with_count(counts, second, second_count),
            first,
            first_count,
        ),
{
    assert(with_count(with_count(counts, first, first_count), second, second_count)
        =~= with_count(with_count(counts, second, second_count), first, first_count));
}

/// No count is lost: what is counted for a stack is added to the total, where that is not too
/// large.
pub proof fn counting_adds_up<T>(counts: Map<StackKey<T>, u64>, key: StackKey<T>, count: u64)
    requires
        counts.dom().finite(),
        total(counts) + count <= u64::MAX,
    ensures
        with_count(counts, key, count).dom().finite(),
        total(with_count(counts, key, count)) == total(counts) + count,
{
    let before = if counts.contains_key(key) {
        counts[key] as int
    } else {
        0
    };
    if counts.contains_key(key) {
        count_within_total(counts, key);
    }
    total_with_count(counts, key, count, (before + count) as u64);
}

} // verus!
