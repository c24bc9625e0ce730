use mkaudiolibrary::buffer::{Buffer, CircularBuffer, PushBuffer};

#[test]
fn buffer_write_then_read_same_slot() {
    let buffer = Buffer::<i64>::new(8);
    let mut w = buffer.write();
    w.set(3, 42);
    assert_eq!(w.at(3), 42);
    w.release();
    let r = buffer.read();
    assert_eq!(r.at(3), 42);
    assert_eq!(r.at(0), 0);
    assert_eq!(r.len(), 8);
    r.release();
}

#[test]
fn buffer_clone_shares_storage() {
    let buffer = Buffer::<i64>::new(4);
    let other = buffer.clone();
    let mut w = other.write();
    w.set(0, 7);
    w.release();
    let r = buffer.read();
    assert_eq!(r.at(0), 7);
    r.release();
    assert!(buffer.ref_count() >= 1);
}

#[test]
fn buffer_from_slice_and_resize() {
    let buffer = Buffer::<i64>::from_slice(&[1, 2, 3]);
    assert_eq!(buffer.len(), 3);
    assert!(!buffer.is_empty());
    buffer.resize(5);
    let r = buffer.read();
    assert_eq!(r.len(), 5);
    assert_eq!(r.at(0), 0);
    r.release();
}

#[test]
fn buffer_try_variants() {
    let buffer = Buffer::<i64>::new(2);
    let r = buffer.try_read().unwrap();
    assert_eq!(r.len(), 2);
    r.release();
    let w = buffer.try_write().unwrap();
    w.release();
}

#[test]
fn push_buffer_keeps_last_n_newest_at_end() {
    let pb = PushBuffer::<i64>::new(4).unwrap();
    let mut w = pb.write();
    for x in 1..=9i64 {
        w.push(x);
    }
    assert_eq!(w.at(0), 6);
    assert_eq!(w.at(1), 7);
    assert_eq!(w.at(2), 8);
    assert_eq!(w.at(3), 9);
    assert_eq!(w.get_index(), 4);
    w.release();
}

#[test]
fn push_buffer_fills_then_shifts() {
    let pb = PushBuffer::<i64>::new(3).unwrap();
    pb.push(10);
    pb.push(20);
    assert_eq!(pb.get_index(), 2);
    let r = pb.read();
    assert_eq!(r.at(0), 10);
    assert_eq!(r.at(1), 20);
    assert_eq!(r.at(2), 0);
    r.release();
    pb.push(30);
    pb.push(40);
    let r = pb.read();
    assert_eq!(r.at(0), 20);
    assert_eq!(r.at(1), 30);
    assert_eq!(r.at(2), 40);
    r.release();
    assert_eq!(pb.len(), 3);
}

#[test]
fn push_buffer_set_index_clamps() {
    let pb = PushBuffer::<i64>::new(4).unwrap();
    pb.set_index(99);
    assert_eq!(pb.get_index(), 4);
    pb.set_index(2);
    assert_eq!(pb.get_index(), 2);
}

#[test]
fn circular_buffer_fifo_in_order_then_default() {
    let ring = CircularBuffer::<i64>::new(4).unwrap();
    assert_eq!(ring.capacity(), 4);
    let mut w = ring.write();
    w.push(11);
    w.push(22);
    w.push(33);
    assert_eq!(w.next(), 11);
    assert_eq!(w.next(), 22);
    assert_eq!(w.next(), 33);
    // Only three of four slots were written, so the next read, before any
    // wrap, still holds the initial fill value.
    assert_eq!(w.next(), 0);
    w.release();
}

#[test]
fn circular_buffer_rounds_capacity_to_power_of_two() {
    let ring = CircularBuffer::<i64>::new(100).unwrap();
    assert_eq!(ring.capacity(), 128);
    assert_eq!(ring.len(), 128);
    let ring = CircularBuffer::<i64>::new(0).unwrap();
    assert_eq!(ring.capacity(), 1);
    assert!(!ring.is_empty());
}

#[test]
fn circular_buffer_offsets_and_pointers() {
    let ring = CircularBuffer::<i64>::new(4).unwrap();
    let mut w = ring.write();
    w.push(1);
    w.push(2);
    assert_eq!(w.get_write(), 2);
    assert_eq!(w.get_read(), 0);
    assert_eq!(w.peek(), 1);
    assert_eq!(w.read_offset(1), 2);
    w.write_offset(0, 5);
    assert_eq!(w.at(2), 5);
    w.set_read(6);
    assert_eq!(w.get_read(), 2);
    w.set_write(5);
    assert_eq!(w.get_write(), 1);
    w.clear();
    assert_eq!(w.get_read(), 0);
    assert_eq!(w.get_write(), 0);
    assert_eq!(w.at(2), 0);
    w.release();
}

#[test]
fn circular_buffer_wraps_at_capacity() {
    let ring = CircularBuffer::<i64>::from_slice(&[1, 2]);
    let mut w = ring.write();
    assert_eq!(w.get_write(), 0);
    assert_eq!(w.next(), 1);
    assert_eq!(w.next(), 2);
    assert_eq!(w.get_read(), 0);
    w.release();
    ring.push(7);
    assert_eq!(ring.peek(), 7);
    assert_eq!(ring.next(), 7);
}

#[test]
fn circular_buffer_full_capacity_wraps_to_pushed_values() {
    // After exactly capacity pushes the read pointer wraps straight back
    // into the pushed samples, so no initial fill values are seen.
    let ring = CircularBuffer::<i64>::new(4).unwrap();
    let mut w = ring.write();
    for x in [1, 2, 3, 4] {
        w.push(x);
    }
    for x in [1, 2, 3, 4] {
        assert_eq!(w.next(), x);
    }
    assert_eq!(w.next(), 1);
    w.release();
}

#[test]
fn push_buffer_empty_window_ignores_pushes() {
    let pb = PushBuffer::<i64>::new(0).unwrap();
    pb.push(5);
    assert_eq!(pb.len(), 0);
    assert!(pb.is_empty());
    assert_eq!(pb.get_index(), 0);
}

#[test]
fn buffer_zero_length() {
    let buffer = Buffer::<i64>::new(0);
    assert!(buffer.is_empty());
    let r = buffer.read();
    assert!(r.is_empty());
    r.release();
}
