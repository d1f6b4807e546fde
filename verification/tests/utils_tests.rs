use fraktal::Pos;
use fraktal::Pristine;
use fraktal::PtrEq;
use fraktal::Ratchet;
use std::rc::Rc;

#[test]
fn ratchet_latch_iff_set() {
    let mut r: Ratchet<u32> = Ratchet::new(1);
    assert_eq!(*r.current(), 1);
    // Nothing queued: no latch.
    assert_eq!(r.latch(), None);
    // Once set, exactly one latch yields (old, new).
    r.set(2);
    assert_eq!(r.latch(), Some((1, 2)));
    assert_eq!(*r.current(), 2);
    assert_eq!(r.latch(), None);
    // Multiple sets coalesce into the last queued value.
    r.set(3);
    r.set(4);
    assert_eq!(r.latch(), Some((2, 4)));
    assert_eq!(r.latch(), None);
}

#[test]
fn ratchet_update_builds_on_queued_value() {
    let mut r: Ratchet<u32> = Ratchet::new(10);
    r.update(|v| v + 1);
    r.update(|v| v * 2);
    assert_eq!(r.latch(), Some((10, 22)));
}

#[test]
fn pristine_dirty_once_per_touch() {
    let mut p = Pristine::new(7u32);
    // Initially dirty: the first consumer sees the value once.
    assert_eq!(p.get_dirty(), Some(&7));
    assert_eq!(p.get_dirty(), None);
    assert_eq!(*p.get(), 7);
    assert_eq!(p.get_dirty(), None);
    *p.get_mut() = 8;
    assert_eq!(p.get_dirty(), Some(&8));
    assert_eq!(p.get_dirty(), None);
}

#[test]
fn pos_unwrap() {
    let p = Pos { x: 3, y: -4 };
    assert_eq!(p.unwrap(), (3, -4));
}

#[test]
fn ptr_eq_wraps_handle() {
    let rc = Rc::new(5u32);
    let p = PtrEq::new(Rc::clone(&rc));
    assert_eq!(*p.0, 5);
}
