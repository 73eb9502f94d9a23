use pyroclast::perfdata::raw_stack::RawStackAccumulator;

#[test]
fn accumulates_identical_raw_stacks() {
    let mut accumulator = RawStackAccumulator::<u64>::new();

    accumulator.add(Some(7), [0x1000, 0x2000], 1);
    accumulator.add(Some(7), [0x1000, 0x2000], 3);
    accumulator.add(Some(8), [0x1000, 0x2000], 1);

    let collapsed = accumulator.into_collapsed();

    assert_eq!(collapsed.len(), 2);
    assert_eq!(collapsed[0].pid, Some(7));
    assert_eq!(collapsed[0].callchain, vec![0x1000, 0x2000]);
    assert_eq!(collapsed[0].count, 4);
    assert_eq!(collapsed[1].pid, Some(8));
    assert_eq!(collapsed[1].count, 1);
}

#[test]
fn accumulates_owned_raw_stack_vectors() {
    let mut accumulator = RawStackAccumulator::<u64>::new();

    accumulator.add_vec(Some(7), vec![0x1000, 0x2000], 1);
    accumulator.add_vec(Some(7), vec![0x1000, 0x2000], 2);

    let collapsed = accumulator.into_collapsed();

    assert_eq!(collapsed.len(), 1);
    assert_eq!(collapsed[0].callchain, vec![0x1000, 0x2000]);
    assert_eq!(collapsed[0].count, 3);
}

#[test]
fn accumulates_borrowed_raw_stack_slices() {
    let mut accumulator = RawStackAccumulator::<u64>::new();
    let stack = vec![0x1000, 0x2000];

    accumulator.add_slice(Some(7), &stack, 1);
    accumulator.add_slice(Some(7), &stack, 2);

    let collapsed = accumulator.into_collapsed();

    assert_eq!(collapsed.len(), 1);
    assert_eq!(collapsed[0].callchain, vec![0x1000, 0x2000]);
    assert_eq!(collapsed[0].count, 3);
}

#[test]
fn shares_interned_prefix_nodes_between_distinct_stacks() {
    let mut accumulator = RawStackAccumulator::<u64>::new();

    accumulator.add_slice_with_comm(Some(7), Some("pyroclast".to_string()), &[1, 2, 3], 1);
    accumulator.add_slice_with_comm(Some(8), Some("pyroclast".to_string()), &[1, 2, 4], 1);

    assert_eq!(accumulator.interned_node_count(), 4);
    assert_eq!(accumulator.interned_comm_count(), 1);

    let collapsed = accumulator.into_collapsed();

    assert_eq!(collapsed.len(), 2);
    assert_eq!(collapsed[0].callchain, vec![1, 2, 3]);
    assert_eq!(collapsed[1].callchain, vec![1, 2, 4]);
}

#[test]
fn keeps_prefix_stacks_distinct_from_longer_stacks() {
    let mut accumulator = RawStackAccumulator::<u64>::new();

    accumulator.add(Some(7), [1, 2], 2);
    accumulator.add(Some(7), [1, 2, 3], 1);

    assert_eq!(accumulator.interned_node_count(), 3);

    let collapsed = accumulator.into_collapsed();

    assert_eq!(collapsed.len(), 2);
    assert_eq!(collapsed[0].callchain, vec![1, 2]);
    assert_eq!(collapsed[0].count, 2);
    assert_eq!(collapsed[1].callchain, vec![1, 2, 3]);
    assert_eq!(collapsed[1].count, 1);
}

#[test]
fn reuses_interned_nodes_across_owned_and_borrowed_insert_paths() {
    let mut accumulator = RawStackAccumulator::<u64>::new();

    accumulator.add_vec(Some(7), vec![1, 2, 3], 1);
    accumulator.add_slice(Some(7), &[1, 2, 3], 2);

    assert_eq!(accumulator.interned_node_count(), 3);

    let collapsed = accumulator.into_collapsed();

    assert_eq!(collapsed.len(), 1);
    assert_eq!(collapsed[0].callchain, vec![1, 2, 3]);
    assert_eq!(collapsed[0].count, 3);
}

#[test]
fn preserves_counts_across_large_table_growth() {
    let mut accumulator = RawStackAccumulator::<u64>::new();

    for value in 0..2048_u64 {
        accumulator.add(Some(7), [value, value + 1], 1);
    }

    let collapsed = accumulator.into_collapsed();

    assert_eq!(collapsed.len(), 2048);
    assert_eq!(collapsed[0].callchain, vec![0, 1]);
    assert_eq!(collapsed[0].count, 1);
    assert_eq!(collapsed[2047].callchain, vec![2047, 2048]);
    assert_eq!(collapsed[2047].count, 1);
}

#[test]
fn iterates_frames_leaf_to_root_without_rebuild_allocation() {
    let mut accumulator = RawStackAccumulator::<u64>::new();

    accumulator.add(Some(7), [1, 2, 3], 1);

    let entries = accumulator.sorted_entries();
    let frames = entries[0].frames_leaf_to_root().to_vec();

    assert_eq!(frames, vec![3, 2, 1]);

    let mut walk = entries[0].frames_leaf_to_root();
    assert_eq!(walk.next(), Some(&3));
    assert_eq!(walk.next(), Some(&2));
    assert_eq!(walk.next(), Some(&1));
    assert_eq!(walk.next(), None);
}

#[test]
fn round_trips_empty_callchains() {
    let mut accumulator = RawStackAccumulator::<u64>::new();

    accumulator.add_vec_with_comm(Some(7), Some("pyroclast".to_string()), Vec::<u64>::new(), 5);

    let collapsed = accumulator.into_collapsed();

    assert_eq!(collapsed.len(), 1);
    assert_eq!(collapsed[0].pid, Some(7));
    assert_eq!(collapsed[0].comm.as_deref(), Some("pyroclast"));
    assert!(collapsed[0].callchain.is_empty());
    assert_eq!(collapsed[0].count, 5);
}

#[test]
fn sorted_entries_follow_pid_and_comm_order() {
    let mut accumulator = RawStackAccumulator::<u64>::new();

    accumulator.add_slice_with_comm(Some(8), Some("beta".to_string()), &[2, 1], 3);
    accumulator.add_slice_with_comm(Some(7), Some("alpha".to_string()), &[1, 2], 1);
    accumulator.add_slice_with_comm(Some(7), Some("alpha".to_string()), &[1, 1], 2);

    let entries = accumulator.sorted_entries();
    let mut scratch = Vec::new();

    assert_eq!(entries.len(), 3);
    assert_eq!(entries[0].pid(), Some(7));
    assert_eq!(entries[0].comm(), Some("alpha"));
    assert_eq!(entries[1].pid(), Some(7));
    assert_eq!(entries[1].comm(), Some("alpha"));
    assert_eq!(entries[2].pid(), Some(8));
    assert_eq!(entries[2].comm(), Some("beta"));
    assert_eq!(entries[2].count(), 3);
    assert_eq!(entries[2].callchain(&mut scratch), [2, 1]);

    let mut alpha_callchains = [
        (entries[0].callchain(&mut scratch).to_vec(), entries[0].count()),
        (entries[1].callchain(&mut scratch).to_vec(), entries[1].count()),
    ];
    alpha_callchains.sort_unstable();
    assert_eq!(alpha_callchains, [(vec![1, 1], 2), (vec![1, 2], 1)]);
}

#[test]
fn borrows_comm_names_without_reinterning_duplicates() {
    let mut accumulator = RawStackAccumulator::<u64>::new();

    accumulator.add_slice_with_borrowed_comm(Some(7), Some("pyroclast"), &[1, 2, 3], 1);
    accumulator.add_slice_with_borrowed_comm(Some(8), Some("pyroclast"), &[1, 2, 4], 1);

    assert_eq!(accumulator.interned_comm_count(), 1);
}

#[test]
fn the_order_of_counting_makes_no_difference() {
    let mut first = RawStackAccumulator::<u64>::new();
    first.add(Some(7), [1, 2], 2);
    first.add(Some(7), [3], 5);
    first.add(None, [1, 2], 1);
    let mut second = RawStackAccumulator::<u64>::new();
    second.add(None, [1, 2], 1);
    second.add(Some(7), [3], 5);
    second.add(Some(7), [1, 2], 2);

    let first = first.into_collapsed();
    let second = second.into_collapsed();

    assert_eq!(first.len(), 3);
    assert_eq!(first, second);
    assert_eq!(first.iter().map(|stack| stack.count).sum::<u64>(), 8);
}

#[test]
fn the_largest_count_stays() {
    let mut accumulator = RawStackAccumulator::<u64>::new();
    accumulator.add(Some(7), [1], u64::MAX);
    accumulator.add(Some(7), [1], 1);

    let collapsed = accumulator.into_collapsed();

    assert_eq!(collapsed.len(), 1);
    assert_eq!(collapsed[0].count, u64::MAX);
}
