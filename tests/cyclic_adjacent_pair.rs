use adjacent_pair_iterator::{CyclicAdjacentPairIterator, CyclicAdjacentPairs};

#[test]
fn cyclic_adjacent_pair_should_provide_nothing_without_items() {
    let array: [i32; 0] = [];
    let mut iterator = array.iter().cyclic_adjacent_pairs();

    assert_eq!(None, iterator.next());
}

#[test]
fn cyclic_adjacent_pair_should_provide_nothing_for_only_one_input() {
    let array = [1];
    let mut iterator = array.iter().cyclic_adjacent_pairs();

    assert_eq!(None, iterator.next());
}

#[test]
fn should_provide_two_pairs_for_two_inputs() {
    let array = [1, 2];
    let mut iterator = array.iter().cyclic_adjacent_pairs();

    assert_eq!(Some((&1, &2)), iterator.next());
    assert_eq!(Some((&2, &1)), iterator.next());
    assert_eq!(None, iterator.next());
}

#[test]
fn should_provide_three_pairs_for_three_inputs() {
    let array = [1, 2, 3];
    let mut iterator = array.iter().cyclic_adjacent_pairs();

    assert_eq!(Some((&1, &2)), iterator.next());
    assert_eq!(Some((&2, &3)), iterator.next());
    assert_eq!(Some((&3, &1)), iterator.next());
    assert_eq!(None, iterator.next());
}

#[test]
fn cyclic_adjacent_pair_should_provide_many_pairs() {
    let array = [1, 2, 3, 4, 5, 6];
    let mut iterator = array.iter().cyclic_adjacent_pairs();

    assert_eq!(Some((&1, &2)), iterator.next());
    assert_eq!(Some((&2, &3)), iterator.next());
    assert_eq!(Some((&3, &4)), iterator.next());
    assert_eq!(Some((&4, &5)), iterator.next());
    assert_eq!(Some((&5, &6)), iterator.next());
    assert_eq!(Some((&6, &1)), iterator.next());
    assert_eq!(None, iterator.next());
}

#[test]
fn cyclic_adjacent_pair_should_work_with_into_iterator() {
    let vector = vec![1, 2, 3];
    let mut iterator = vector.into_iter().cyclic_adjacent_pairs();

    assert_eq!(Some((1, 2)), iterator.next());
    assert_eq!(Some((2, 3)), iterator.next());
    assert_eq!(Some((3, 1)), iterator.next());
    assert_eq!(None, iterator.next());
}

#[test]
fn cyclic_adjacent_pair_stays_exhausted_after_closing_pair() {
    let vector = vec![4, 5];
    let mut iterator = vector.into_iter().cyclic_adjacent_pairs();

    assert_eq!(Some((4, 5)), iterator.next());
    assert_eq!(Some((5, 4)), iterator.next());
    for _ in 0..5 {
        assert_eq!(None, iterator.next());
    }
}

#[test]
fn cyclic_adjacent_pair_single_input_stays_exhausted() {
    let mut iterator = vec![1].into_iter().cyclic_adjacent_pairs();

    assert_eq!(None, iterator.next());
    assert_eq!(None, iterator.next());
    assert_eq!(None, iterator.next());
}

#[test]
fn cyclic_adjacent_pair_clones_owned_values() {
    let words = vec![String::from("x"), String::from("y"), String::from("z")];
    let mut iterator = words.into_iter().cyclic_adjacent_pairs();

    assert_eq!(Some((String::from("x"), String::from("y"))), iterator.next());
    assert_eq!(Some((String::from("y"), String::from("z"))), iterator.next());
    assert_eq!(Some((String::from("z"), String::from("x"))), iterator.next());
    assert_eq!(None, iterator.next());
}

#[test]
fn cyclic_adjacent_pair_built_directly() {
    let mut iterator = CyclicAdjacentPairs::new(vec![10u8, 20, 30].into_iter());

    assert_eq!(Some((10, 20)), iterator.next());
    assert_eq!(Some((20, 30)), iterator.next());
    assert_eq!(Some((30, 10)), iterator.next());
    assert_eq!(None, iterator.next());
}

#[test]
fn cyclic_adjacent_pair_counts_pairs_of_long_input() {
    let n: u32 = 100;
    let mut iterator = (0..n).cyclic_adjacent_pairs();
    let mut count: u32 = 0;
    while let Some((left, right)) = iterator.next() {
        assert_eq!(left, count);
        assert_eq!(right, (count + 1) % n);
        count += 1;
    }
    assert_eq!(n, count);
}
