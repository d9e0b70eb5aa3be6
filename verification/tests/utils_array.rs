use std::cell::Cell;
use std::rc::Rc;

use doas::utils::array::{slice, Array};

#[test]
fn const_array() {
    let mut a = Array::<3, i32>::new();

    a.push(1);
    a.push(2);
    a.push(3);

    let popped = a.pop();
    if let Some(3) = popped {
    } else {
        panic!("unexpected pop value");
    }

    let slice = a.as_slice();
    if slice.len() != 2 {
        panic!("unexpected len");
    }
    if slice[0] != 1 || slice[1] != 2 {
        panic!("unexpected slice content");
    }

    let cleared = a.clear();

    if let (Some(1), Some(2), true) = (cleared[0], cleared[1], cleared[2].is_none()) {
    } else {
        panic!("unexpected clear result");
    }

    a.push(10);
    a.push(20);

    let s = a.as_mut_slice();
    if s.len() != 2 {
        panic!("unexpected slice len");
    }
    s[1] = 30;
    if s[0] != 10 || s[1] != 30 {
        panic!("unexpected slice values");
    }
}

#[test]
fn const_slice_behavior() {
    let data = [1, 2, 3, 4];

    let a = slice(&data, 1..3);
    if a.len() != 2 || a[0] != 2 || a[1] != 3 {
        panic!("slice mismatch");
    }

    let b = slice(&data, 0..0);
    if !b.is_empty() {
        panic!("expected empty slice");
    }

    let c = slice(&data, 2..2);
    if !c.is_empty() {
        panic!("expected empty slice");
    }
}

struct NeedDrop(Rc<Cell<i32>>);

impl Drop for NeedDrop {
    fn drop(&mut self) {
        self.0.set(self.0.get() - 1);
    }
}

#[test]
fn drop_behavior() {
    let num = Rc::new(Cell::new(10));
    let mut array = Array::<10, NeedDrop>::new();
    let mut i = 0;
    while i < 10 {
        array.push(NeedDrop(num.clone()));
        i += 1;
    }

    assert_eq!(num.get(), 10);
    array.drop();
    assert_eq!(num.get(), 0);
}

#[test]
fn array_push_checked_refuses_when_full() {
    let mut a = Array::<2, u8>::new();
    assert_eq!(a.push_checked(1), Ok(()));
    assert_eq!(a.push_checked(2), Ok(()));
    assert_eq!(a.push_checked(3), Err(3));
    assert_eq!(a.as_slice(), &[1, 2]);
    assert_eq!(a.len(), 2);
    assert_eq!(a.capacity(), 2);
    assert!(!a.is_empty());
}

#[test]
fn array_pop_undoes_push() {
    let mut a = Array::<4, u8>::new();
    a.push(7);
    a.push(9);
    assert_eq!(a.pop(), Some(9));
    assert_eq!(a.as_slice(), &[7]);
    assert_eq!(a.pop(), Some(7));
    assert_eq!(a.pop(), None);
    assert!(a.is_empty());
}

#[test]
fn array_wipe_empties() {
    let mut a = Array::<8, u8>::new();
    a.push(b's');
    a.push(b'e');
    a.wipe();
    assert!(a.is_empty());
    assert_eq!(a.as_slice(), &[] as &[u8]);
}
