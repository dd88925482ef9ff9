use voxel_mesh::{place_of, reversed, sorted_indices, RemoveMultiple};

#[test]
fn sorted_indices_are_ascending() {
    assert_eq!(sorted_indices(vec![3, 1, 2, 1, 0]), vec![0, 1, 1, 2, 3]);
    assert_eq!(sorted_indices(vec![]), Vec::<usize>::new());
    assert_eq!(sorted_indices(vec![usize::MAX, 0]), vec![0, usize::MAX]);
}

#[test]
fn reversed_turns_a_vector_round() {
    assert_eq!(reversed(vec!['a', 'b', 'c']), vec!['c', 'b', 'a']);
    assert_eq!(reversed(Vec::<u8>::new()), Vec::<u8>::new());
    assert_eq!(reversed(vec![String::from("x")]), vec![String::from("x")]);
}

#[test]
fn place_of_counts_smaller_and_earlier_equal_indices() {
    let idx = [5usize, 2, 5, 0, 2];
    assert_eq!(place_of(&idx, 0), 3);
    assert_eq!(place_of(&idx, 1), 1);
    assert_eq!(place_of(&idx, 2), 4);
    assert_eq!(place_of(&idx, 3), 0);
    assert_eq!(place_of(&idx, 4), 2);
}

#[test]
fn remove_multiple_drops_the_elements_at_the_indices() {
    let mut v = vec!['a', 'b', 'c', 'd', 'e'];
    v.remove_multiple(vec![3, 1]);
    assert_eq!(v, vec!['a', 'c', 'e']);
    v.remove_multiple(vec![]);
    assert_eq!(v, vec!['a', 'c', 'e']);
    v.remove_multiple(vec![0, 2, 1]);
    assert!(v.is_empty());
}

#[test]
fn remove_multiple_works_an_index_off_as_often_as_it_stands() {
    let mut v = vec![0, 1, 2, 3];
    v.remove_multiple(vec![1, 1]);
    assert_eq!(v, vec![0, 3]);
    let mut w = vec![0, 1, 2, 3, 4, 5, 6, 7];
    w.remove_multiple(vec![5, 6, 5]);
    assert_eq!(w, vec![0, 1, 2, 3, 4]);
}

#[test]
fn swap_remove_multiple_fills_the_gaps_from_the_end() {
    let mut v = vec![0, 1, 2, 3, 4];
    v.swap_remove_multiple(vec![1, 3]);
    assert_eq!(v, vec![0, 4, 2]);
    let mut w = vec![0, 1, 2];
    w.swap_remove_multiple(vec![2, 0]);
    assert_eq!(w, vec![1]);
}

#[test]
fn take_multiple_returns_the_elements_by_ascending_index() {
    let mut v = vec![10, 11, 12, 13, 14];
    assert_eq!(v.take_multiple(vec![3, 1]), vec![11, 13]);
    assert_eq!(v, vec![10, 12, 14]);
    assert_eq!(v.take_multiple(vec![]), Vec::<i32>::new());
    let mut names = vec![String::from("a"), String::from("b"), String::from("c")];
    assert_eq!(names.take_multiple(vec![2, 0]), vec![String::from("a"), String::from("c")]);
    assert_eq!(names, vec![String::from("b")]);
}

#[test]
fn take_multiple_in_order_follows_the_index_list() {
    let mut v = vec![10, 11, 12, 13, 14];
    assert_eq!(v.take_multiple_in_order(&[3, 1]), vec![13, 11]);
    assert_eq!(v, vec![10, 12, 14]);
    let mut w = vec![10, 11, 12, 13, 14];
    assert_eq!(w.take_multiple_in_order(&[4, 0, 2]), vec![14, 10, 12]);
    assert_eq!(w, vec![11, 13]);
    assert_eq!(w.take_multiple_in_order(&[]), Vec::<i32>::new());
}

#[test]
fn take_multiple_in_order_with_an_index_that_stands_twice() {
    let mut v = vec![10, 11, 12, 13];
    assert_eq!(v.take_multiple_in_order(&[2, 2]), vec![13, 12]);
    assert_eq!(v, vec![10, 11]);
}

#[test]
fn swap_take_multiple_returns_the_elements_from_the_largest_index_down() {
    let mut v = vec![10, 11, 12, 13, 14];
    assert_eq!(v.swap_take_multiple(vec![1, 3]), vec![13, 11]);
    assert_eq!(v, vec![10, 14, 12]);
}
