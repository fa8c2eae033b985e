use rustlab::fast_vec::{display_text, FastVec};

#[test]
fn new_vector_is_empty_with_room_for_one() {
    let v: FastVec<i32> = FastVec::new();
    assert_eq!(v.len(), 0);
    assert_eq!(v.capacity(), 1);
}

#[test]
fn with_capacity_sets_capacity() {
    let v: FastVec<u8> = FastVec::with_capacity(7);
    assert_eq!(v.len(), 0);
    assert_eq!(v.capacity(), 7);
}

#[test]
fn push_doubles_capacity_when_full() {
    let mut v = FastVec::new();
    v.push(10);
    assert_eq!((v.len(), v.capacity()), (1, 1));
    v.push(20);
    assert_eq!((v.len(), v.capacity()), (2, 2));
    v.push(30);
    assert_eq!((v.len(), v.capacity()), (3, 4));
    v.push(40);
    assert_eq!((v.len(), v.capacity()), (4, 4));
    v.push(50);
    assert_eq!((v.len(), v.capacity()), (5, 8));
    assert_eq!(*v.get(0), 10);
    assert_eq!(*v.get(4), 50);
}

#[test]
fn push_keeps_capacity_when_not_full() {
    let mut v = FastVec::with_capacity(3);
    v.push('a');
    v.push('b');
    assert_eq!(v.capacity(), 3);
    assert_eq!(*v.get(1), 'b');
}

#[test]
fn push_after_clear_grows_from_zero() {
    let mut v = FastVec::from_vec(vec![1, 2, 3]);
    v.clear();
    assert_eq!((v.len(), v.capacity()), (0, 0));
    v.push(9);
    assert_eq!((v.len(), v.capacity()), (1, 1));
    assert_eq!(*v.get(0), 9);
}

#[test]
fn get_after_push_reads_the_pushed_element() {
    let mut v = FastVec::from_vec(vec![String::from("x")]);
    v.push(String::from("y"));
    assert_eq!(v.get(1), "y");
    assert_eq!(v.get(0), "x");
}

#[test]
fn remove_shifts_later_elements() {
    let mut v = FastVec::from_vec(vec![1, 2, 3, 4]);
    v.remove(1);
    assert_eq!(v.len(), 3);
    assert_eq!(v.capacity(), 4);
    assert_eq!(v.into_vec(), vec![1, 3, 4]);
}

#[test]
fn remove_last_and_first() {
    let mut v = FastVec::from_vec(vec![5, 6, 7]);
    v.remove(2);
    v.remove(0);
    assert_eq!(v.into_vec(), vec![6]);
}

#[test]
fn from_vec_then_into_vec_round_trips() {
    let v = FastVec::from_vec(vec![3, 1, 4, 1, 5]);
    assert_eq!(v.len(), 5);
    assert_eq!(v.capacity(), 5);
    assert_eq!(v.into_vec(), vec![3, 1, 4, 1, 5]);
}

#[test]
fn clear_empties_and_releases_capacity() {
    let mut v = FastVec::from_vec(vec![String::from("a"), String::from("b")]);
    v.clear();
    assert_eq!(v.len(), 0);
    assert_eq!(v.capacity(), 0);
    assert!(v.into_vec().is_empty());
}

#[test]
fn display_text_of_several_items() {
    let items = vec![String::from("1"), String::from("2"), String::from("3")];
    assert_eq!(display_text(&items), "FastVec[1, 2, 3]");
}

#[test]
fn display_text_of_one_and_no_items() {
    assert_eq!(display_text(&vec![String::from("x")]), "FastVec[x]");
    assert_eq!(display_text(&Vec::new()), "FastVec[]");
}
