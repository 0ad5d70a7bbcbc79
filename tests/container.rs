use scheme_ipc::vec::Vec;

#[test]
fn push_pop_get() {
    let mut v: Vec<u32> = Vec::new();
    assert_eq!(v.len(), 0);
    v.push(1);
    v.push(2);
    v.push(3);
    assert_eq!(v.len(), 3);
    assert_eq!(v.get(1), Some(&2));
    assert_eq!(v.get(3), None);
    assert_eq!(v.pop(), Some(3));
    assert_eq!(v.len(), 2);
}

#[test]
fn set_rejects_end() {
    let mut v = Vec::from_slice(&[1u8, 2]);
    v.set(1, 9);
    v.set(2, 7);
    assert_eq!(v.as_slice(), &[1, 9]);
}

#[test]
fn insert_remove() {
    let mut v = Vec::from_slice(&[1u8, 3]);
    v.insert(1, 2);
    v.insert(9, 4);
    assert_eq!(v.as_slice(), &[1, 2, 3]);
    assert_eq!(v.remove(0), Some(1));
    assert_eq!(v.remove(5), None);
    assert_eq!(v.as_slice(), &[2, 3]);
}

#[test]
fn iterators() {
    let v = Vec::from_slice(&[4u16, 5, 6]);
    let mut it = v.iter();
    assert_eq!(it.next(), Some(&4));
    assert_eq!(it.next(), Some(&5));
    assert_eq!(it.next(), Some(&6));
    assert_eq!(it.next(), None);
    let mut owned = v.into_iter();
    assert_eq!(owned.next(), Some(4));
    assert_eq!(owned.next(), Some(5));
    assert_eq!(owned.next(), Some(6));
    assert_eq!(owned.next(), None);
}

#[test]
fn sub_and_push_all() {
    let v = Vec::from_slice(&[1u8, 2, 3, 4, 5]);
    assert_eq!(v.sub(1, 2).as_slice(), &[2, 3]);
    assert_eq!(v.sub(3, 10).as_slice(), &[4, 5]);
    assert_eq!(v.sub(9, 1).len(), 0);
    let mut w = Vec::from_slice(&[0u8]);
    w.push_all(&v);
    assert_eq!(w.as_slice(), &[0, 1, 2, 3, 4, 5]);
}
