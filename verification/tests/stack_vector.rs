use codingame_bots::stack_vector::StackVector;

fn assert_same_elements<T: PartialEq + std::fmt::Debug>(left: &[T], right: &[T]) {
    assert_eq!(left.len(), right.len(), "LEFT: {:?}, RIGHT: {:?}", left, right);
    assert!(left.iter().all(|m| right.contains(m)), "LEFT: {:?}, RIGHT: {:?}", left, right);
    assert!(right.iter().all(|m| left.contains(m)), "LEFT: {:?}, RIGHT: {:?}", left, right);
}

#[test]
fn test_stackvector_remove() {
    let mut list: StackVector<u8, 10> = StackVector::new();
    for i in 0..5 {
        list.add(i);
    }

    assert_eq!(list.len(), 5);

    let e = list.remove(2);

    assert_eq!(e, 2);
    assert_eq!(list.len(), 4);
    assert_eq!(*list.get(0), 0);
    assert_eq!(*list.get(1), 1);
    assert_eq!(*list.get(2), 3);
    assert_eq!(*list.get(3), 4);
}

#[test]
fn test_stackvector_slice_after_remove() {
    let mut list: StackVector<u8, 10> = StackVector::new();
    for i in 0..5 {
        list.add(i);
    }

    assert_eq!(list.slice().len(), 5);
    let v: Vec<u8> = list.slice().to_vec();
    assert_same_elements(&v, &vec![0, 1, 2, 3, 4]);

    list.remove(2);
    assert_eq!(list.slice().len(), 4);
    let v: Vec<u8> = list.slice().to_vec();
    assert_same_elements(&v, &vec![0, 1, 3, 4]);
}

#[test]
fn test_stackvector_full_remove_last_element() {
    let mut list: StackVector<u8, 10> = StackVector::new();
    for i in 0..10 {
        list.add(i);
    }

    list.remove(9);
    assert_eq!(list.slice().len(), 9);
    let v: Vec<u8> = list.slice().to_vec();
    assert_same_elements(&v, &vec![0, 1, 2, 3, 4, 5, 6, 7, 8]);

    list.remove(0);
    assert_eq!(list.slice().len(), 8);
    let v: Vec<u8> = list.slice().to_vec();
    assert_same_elements(&v, &vec![1, 2, 3, 4, 5, 6, 7, 8]);
}

#[test]
fn test_stackvector_full_remove_first_element() {
    let mut list: StackVector<u8, 10> = StackVector::new();
    for i in 0..10 {
        list.add(i);
    }

    list.remove(0);
    assert_eq!(list.slice().len(), 9);
    let v: Vec<u8> = list.slice().to_vec();
    assert_same_elements(&v, &vec![1, 2, 3, 4, 5, 6, 7, 8, 9]);
}

#[test]
fn test_stackvector_remove_multiple_elements() {
    let mut list: StackVector<u8, 10> = StackVector::new();
    for i in 0..10 {
        list.add(i);
    }
    list.remove_multi([0, 4]);
    let v: Vec<u8> = list.slice().to_vec();
    assert_same_elements(&v, &vec![1, 2, 3, 5, 6, 7, 8, 9]);

    //
    let mut list: StackVector<u8, 10> = StackVector::new();
    for i in 0..10 {
        list.add(i);
    }
    list.remove_multi([7, 0, 4]);
    let v: Vec<u8> = list.slice().to_vec();
    assert_same_elements(&v, &vec![1, 2, 3, 5, 6, 8, 9]);

    //
    let mut list: StackVector<u8, 10> = StackVector::new();
    for i in 0..10 {
        list.add(i);
    }
    list.remove_multi([5]);
    let v: Vec<u8> = list.slice().to_vec();
    assert_same_elements(&v, &vec![0, 1, 2, 3, 4, 6, 7, 8, 9]);
}

#[test]
fn test_stackvector_from() {
    let v = vec![3, 4, 5, 6];
    let sv: StackVector<i32, 10> = StackVector::from(&v);

    assert_same_elements(&v, sv.slice());
    assert_eq!(sv.len(), 4)
}

#[test]
fn stackvector_remove_multi_returns_removed_in_ascending_index_order() {
    let mut list: StackVector<u8, 10> = StackVector::new();
    for i in 0..10 {
        list.add(i * 10);
    }
    let removed = list.remove_multi([7, 0, 4]);
    assert_eq!(removed, vec![0, 40, 70]);
    assert_eq!(list.slice(), &[10, 20, 30, 50, 60, 80, 90]);
}

#[test]
fn stackvector_add_then_remove_last_restores() {
    let mut list: StackVector<u8, 10> = StackVector::new();
    for i in 0..4 {
        list.add(i);
    }
    let before = list.slice().to_vec();
    list.add(42);
    let e = list.remove(4);
    assert_eq!(e, 42);
    assert_eq!(list.slice(), &before[..]);
}
