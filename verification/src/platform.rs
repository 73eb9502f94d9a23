//! The threads of a process, as the system lists them.

use vstd::prelude::*;

use crate::sorting::{same_items, sort, views_permute, Ranked};
use crate::text::{
    chars_of, decimal, parse_number, push_decimal, stated_number, stated_numbers_are_read, views,
};

verus! {

/// The number of a thread.
#[derive(Clone, Copy, Debug, Eq, PartialEq)]
pub struct ThreadId {
    pub id: u32,
}

impl View for ThreadId {
    type V = u32;

    open spec fn view(&self) -> u32 {
        self.id
    }
}

impl Ranked for ThreadId {
    open spec fn before(&self, other: &Self) -> bool {
        self.id <= other.id
    }

    fn in_order(&self, other: &Self) -> (ordered: bool) {
        self.id <= other.id
    }

    proof fn order_is_total(left: &Self, right: &Self) {
    }

    proof fn order_is_transitive(a: &Self, b: &Self, c: &Self) {
    }
}

/// The thread that a directory is named after.
pub open spec fn thread_of(name: Seq<char>) -> Option<u32> {
    match stated_number(name) {
        Some(number) => if number <= u32::MAX {
            Some(number as u32)
        } else {
            None
        },
        None => None,
    }
}

/// The threads that the first `count` directories are named after.
pub open spec fn threads_of(names: Seq<Seq<char>>, count: int) -> Seq<u32>
    decreases count,
{
    if count <= 0 {
        Seq::empty()
    } else {
        match thread_of(names[count - 1]) {
            Some(tid) => threads_of(names, count - 1).push(tid),
            None => threads_of(names, count - 1),
        }
    }
}

/// Whether numbers stand in increasing order.
pub open spec fn increasing(numbers: Seq<u32>) -> bool {
    forall|i: int, j: int|
        #![trigger numbers[i], numbers[j]]
        0 <= i < j < numbers.len() ==> numbers[i] <= numbers[j]
}

/// Where the threads of a process are listed.
#[must_use]
pub fn task_directory(proc_root: &str, pid: u32) -> (path: String)
    ensures
        path@ == crate::artifacts::path_in(
            crate::artifacts::path_in(proc_root@, decimal(pid as nat)),
            "task"@,
        ),
{
    let mut name = String::new();
    push_decimal(&mut name, pid as u128);
    assert(name@ =~= decimal(pid as nat));
    let process = crate::artifacts::join_path(proc_root, name.as_str());
    crate::artifacts::join_path(process.as_str(), "task")
}

/// Reads the threads of a process from the names of their directories.
///
/// # Errors
///
/// Returns an error when no name is that of a thread.
pub fn linux_thread_ids_from_proc(names: &Vec<String>, task_dir: &str) -> (result: Result<
    Vec<u32>,
    String,
>)
    ensures
        ({
            let all = threads_of(views(names@), names@.len() as int);
            match result {
                Ok(tids) => all.len() > 0 && increasing(tids@) && tids@.to_multiset()
                    == all.to_multiset(),
                Err(error) => all.len() == 0 && error@ == "no thread ids found in "@ + task_dir@,
            }
        }),
{
    let ghost told = views(names@);
    let mut tids: Vec<ThreadId> = Vec::new();
    let mut index: usize = 0;
    assert(views(tids@) =~= Seq::empty());
    while index < names.len()
        invariant
            index <= names@.len(),
            told == views(names@),
            views(tids@) == threads_of(told, index as int),
        decreases names@.len() - index,
    {
        assert(told[index as int] == names@[index as int]@);
        if let Some(number) = parse_number(chars_of(names[index].as_str()).as_slice()) {
            if number <= u32::MAX as u64 {
                let ghost before = views(tids@);
                let tid = ThreadId { id: number as u32 };
                tids.push(tid);
                assert(views(tids@) =~= before.push(tid@));
            }
        }
        index += 1;
    }
    if tids.len() == 0 {
        return Err(crate::text::joined("no thread ids found in ", task_dir));
    }
    let ghost unsorted = tids@;
    let ordered = sort(tids);
    proof {
        views_permute(ordered@, unsorted);
        same_items(ordered@, unsorted);
    }
    let mut numbers: Vec<u32> = Vec::with_capacity(ordered.len());
    let mut i: usize = 0;
    while i < ordered.len()
        invariant
            i <= ordered@.len(),
            numbers@.len() == i,
            forall|j: int| 0 <= j < i ==> #[trigger] numbers@[j] == ordered@[j].id,
        decreases ordered@.len() - i,
    {
        numbers.push(ordered[i].id);
        i += 1;
    }
    proof {
        assert(numbers@ =~= views(ordered@));
        assert forall|a: int, b: int|
            #![trigger numbers@[a], numbers@[b]]
            0 <= a < b < numbers@.len() implies numbers@[a] <= numbers@[b] by {
            assert(ordered@[a].before(&ordered@[b]));
        }
    }
    Ok(numbers)
}

// ---------------------------------------------------------------------------
// Laws
// ---------------------------------------------------------------------------

proof fn threads_are_read_up_to(names: Seq<Seq<char>>, count: int)
    requires
        0 <= count <= names.len(),
    ensures
        threads_of(names, count) == names.take(count).filter_map(
            |name: Seq<char>| thread_of(name),
        ),
    decreases count,
{
    if count > 0 {
        threads_are_read_up_to(names, count - 1);
        assert(names.take(count).drop_last() =~= names.take(count - 1));
        assert(names.take(count).last() == names[count - 1]);
        if let Some(tid) = thread_of(names[count - 1]) {
            assert(threads_of(names, count - 1).push(tid) =~= threads_of(names, count - 1)
                + seq![tid]);
        }
    }
}

/// The threads of a process are the numbers that its task directory lists; what is no number of a
/// thread is passed over.
pub proof fn directories_name_their_threads(names: Seq<Seq<char>>, tid: u32)
    ensures
        threads_of(names, names.len() as int) == names.filter_map(
            |name: Seq<char>| thread_of(name),
        ),
        thread_of(decimal(tid as nat)) == Some(tid),
{
    threads_are_read_up_to(names, names.len() as int);
    assert(names.take(names.len() as int) =~= names);
    stated_numbers_are_read(tid as u64);
}

} // verus!
