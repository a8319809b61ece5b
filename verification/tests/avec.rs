use pipevec::avec::AVec;
use pipevec::scheduler::{GrowMessage, GrowOp, Handled, Pushed};
use std::time::Instant;

#[test]
pub fn avec_init_test() {
    let bvec = AVec::<i32, 4>::new(512);
    println!("Capacity: {}", bvec.capacity());
    assert_eq!(bvec.capacity(), 4096);
}

#[test]
pub fn avec_push_reallocation_test() {
    let size = 100;
    let mut bvec = AVec::<i32, 4>::new(2);
    for i in 0..size {
        bvec.push(i);
    }

    for i in 0..size {
        assert_eq!(bvec[i as usize], i);
    }
    assert_eq!(bvec.len(), size as usize);
}

#[test]
pub fn push_reallocation_bench_a_vec() {
    let size = 10000000;
    let mut bvec = AVec::<i32, 4>::new(512);
    let start = Instant::now();
    for i in 0..size {
        bvec.push(i);
    }
    let duration = start.elapsed();

    for i in 0..size {
        assert_eq!(bvec[i as usize], i);
    }

    println!("Time taken BVec: {:?}", duration);
}

#[test]
pub fn ring_of_four_seed_two_hundred_pushes() {
    let mut ring = AVec::<usize, 4>::new(2);
    for i in 0..100usize {
        ring.push(i);
    }
    assert_eq!(ring.len(), 100);
    for i in 0..100usize {
        assert_eq!(*ring.get(i), i);
    }
    assert_eq!(ring.active_capacity(), 128);
    assert_eq!(ring.capacity(), 1024);
    assert_eq!(ring.copy_debt(), 0);
}

#[test]
pub fn ring_new_prepares_doubling_segments() {
    let ring = AVec::<u8, 4>::new(3);
    assert_eq!(ring.len(), 0);
    assert_eq!(ring.active_capacity(), 3);
    assert_eq!(ring.capacity(), 24);
    assert_eq!(ring.copy_debt(), 0);
    let pair = AVec::<u8, 2>::new(5);
    assert_eq!(pair.active_capacity(), 5);
    assert_eq!(pair.capacity(), 10);
    let wide = AVec::<u8, 8>::new(1);
    assert_eq!(wide.capacity(), 128);
}

#[test]
pub fn ring_push_rotates_exactly_when_full() {
    let mut ring = AVec::<i32, 4>::new(2);
    ring.push(1);
    assert_eq!((ring.len(), ring.active_capacity(), ring.capacity()), (1, 2, 16));
    ring.push(2);
    assert_eq!((ring.len(), ring.active_capacity(), ring.capacity()), (2, 4, 32));
    ring.push(3);
    assert_eq!((ring.len(), ring.active_capacity(), ring.capacity()), (3, 4, 32));
    ring.push(4);
    assert_eq!((ring.len(), ring.active_capacity(), ring.capacity()), (4, 8, 64));
    assert_eq!((ring[0], ring[1], ring[2], ring[3]), (1, 2, 3, 4));
}

#[test]
pub fn ring_copy_debt_is_zero_after_every_push() {
    let mut ring = AVec::<usize, 4>::new(1);
    for i in 0..1000usize {
        ring.push(i);
        assert_eq!(ring.copy_debt(), 0);
    }
    let mut pair = AVec::<usize, 2>::new(1);
    for i in 0..1000usize {
        pair.push(i);
        assert_eq!(pair.copy_debt(), 0);
        assert_eq!(pair[i], i);
    }
}

#[test]
pub fn ring_capacity_never_shrinks_and_covers_len() {
    let mut ring = AVec::<usize, 4>::new(3);
    let mut last = ring.capacity();
    for i in 0..5000usize {
        ring.push(i);
        assert!(ring.capacity() >= last);
        assert!(ring.capacity() >= ring.len());
        assert!(ring.active_capacity() > ring.len());
        assert_eq!(ring.capacity(), ring.active_capacity() * 8);
        assert_eq!(ring.len(), i + 1);
        last = ring.capacity();
    }
}

#[test]
pub fn ring_keeps_every_value_over_many_rotations() {
    let mut ring = AVec::<String, 4>::new(1);
    for i in 0..3000usize {
        ring.push(format!("v{}", i));
    }
    assert_eq!(ring.len(), 3000);
    for i in 0..3000usize {
        assert_eq!(ring[i], format!("v{}", i));
    }
}

#[test]
pub fn ring_get_mut_overwrites_one_value() {
    let mut ring = AVec::<i32, 4>::new(2);
    for i in 0..10 {
        ring.push(i);
    }
    *ring.get_mut(3) = 33;
    *ring.get_mut(9) = 99;
    for i in 0..10 {
        let want = if i == 3 { 33 } else if i == 9 { 99 } else { i };
        assert_eq!(ring[i as usize], want);
    }
    assert_eq!(ring.len(), 10);
}

fn message_of(r: Pushed<i32>) -> GrowMessage {
    match r {
        Pushed::Rotated(m) => m,
        other => panic!("no rotation: {:?}", other),
    }
}

#[test]
pub fn offloaded_two_rotations_then_stop() {
    let mut ring = AVec::<i32, 4>::new(2);
    assert!(matches!(ring.push_offloaded(0), Pushed::Stored));
    let first = message_of(ring.push_offloaded(1));
    assert_eq!(first, GrowMessage { op: GrowOp::Grow, slot: 1 });
    assert_eq!(ring.copy_debt(), 1);
    assert!(matches!(ring.push_offloaded(2), Pushed::Stored));
    let second = message_of(ring.push_offloaded(3));
    assert_eq!(second, GrowMessage { op: GrowOp::Grow, slot: 2 });
    assert_eq!(ring.copy_debt(), 2);
    assert_eq!(ring.len(), 4);
    assert_eq!(ring.capacity(), 16);
    assert_eq!(ring.active_capacity(), 8);
    assert_eq!(ring.stop(), None);

    assert_eq!(ring.handle(first), Handled::Refreshed);
    assert_eq!(ring.copy_debt(), 1);
    assert_eq!(ring.capacity(), 32);
    assert_eq!(ring.handle(second), Handled::Refreshed);
    assert_eq!(ring.copy_debt(), 0);
    assert_eq!(ring.capacity(), 64);
    assert_eq!(ring.len(), 4);
    for i in 0..4 {
        assert_eq!(ring[i as usize], i);
    }

    assert_eq!((ring.allocated(), ring.released()), (6, 2));
    let stop = ring.stop().unwrap();
    assert_eq!(stop.op, GrowOp::Stop);
    assert_eq!(ring.handle(stop), Handled::Stopped);
    assert_eq!((ring.allocated(), ring.released()), (6, 2));
    assert_eq!(ring.len(), 4);
    assert_eq!(ring.copy_debt(), 0);
    for i in 0..4 {
        assert_eq!(ring[i as usize], i);
    }
}

#[test]
pub fn offloaded_push_is_refused_when_every_other_segment_is_stale() {
    let mut ring = AVec::<i32, 4>::new(1);
    let m1 = message_of(ring.push_offloaded(10));
    let m2 = message_of(ring.push_offloaded(11));
    assert!(matches!(ring.push_offloaded(12), Pushed::Stored));
    let m3 = message_of(ring.push_offloaded(13));
    assert_eq!(ring.copy_debt(), 3);
    for _ in 0..3 {
        assert!(matches!(ring.push_offloaded(0), Pushed::Stored));
    }
    assert_eq!(ring.len(), 7);
    match ring.push_offloaded(77) {
        Pushed::Refused(v) => assert_eq!(v, 77),
        other => panic!("not refused: {:?}", other),
    }
    assert_eq!(ring.len(), 7);
    assert_eq!(ring.copy_debt(), 3);

    assert_eq!(ring.handle(m1), Handled::Refreshed);
    assert_eq!(ring.copy_debt(), 2);
    let m4 = message_of(ring.push_offloaded(77));
    assert_eq!(ring.copy_debt(), 3);
    assert_eq!(ring.len(), 8);
    assert_eq!(ring.handle(m2), Handled::Refreshed);
    assert_eq!(ring.handle(m3), Handled::Refreshed);
    assert_eq!(ring.handle(m4), Handled::Refreshed);
    assert_eq!(ring.copy_debt(), 0);
    let want = [10, 11, 12, 13, 0, 0, 0, 77];
    for i in 0..8 {
        assert_eq!(ring[i], want[i]);
    }
}

#[test]
pub fn offloaded_debt_stays_below_ring_size_and_only_falls_without_pushes() {
    let mut ring = AVec::<usize, 4>::new(1);
    let mut owed: Vec<GrowMessage> = Vec::new();
    let mut next = 0usize;
    loop {
        match ring.push_offloaded(next) {
            Pushed::Stored => next += 1,
            Pushed::Rotated(m) => {
                owed.push(m);
                next += 1;
            }
            Pushed::Refused(_) => break,
        }
        assert!(ring.copy_debt() <= 3);
    }
    assert_eq!(ring.copy_debt(), 3);
    assert_eq!(owed.len(), 3);
    let mut debt = ring.copy_debt();
    for m in owed {
        assert_eq!(ring.handle(m), Handled::Refreshed);
        assert_eq!(ring.copy_debt(), debt - 1);
        debt = ring.copy_debt();
    }
    assert_eq!(debt, 0);
    assert_eq!(ring.len(), next);
    for i in 0..next {
        assert_eq!(ring[i], i);
    }
}

#[test]
pub fn worker_ignores_messages_that_name_no_waiting_segment() {
    let mut ring = AVec::<i32, 4>::new(1);
    let idle = GrowMessage { op: GrowOp::Grow, slot: 1 };
    assert_eq!(ring.handle(idle), Handled::Ignored);
    assert_eq!(ring.capacity(), 8);
    let m1 = message_of(ring.push_offloaded(1));
    let m2 = message_of(ring.push_offloaded(2));
    assert_eq!((m1.slot, m2.slot), (1, 2));
    assert_eq!(ring.handle(m2), Handled::Ignored);
    assert_eq!(ring.copy_debt(), 2);
    assert_eq!(ring.capacity(), 8);
    assert_eq!(ring.handle(m1), Handled::Refreshed);
    assert_eq!(ring.handle(m1), Handled::Ignored);
    assert_eq!(ring.handle(m2), Handled::Refreshed);
    assert_eq!(ring.copy_debt(), 0);
    assert_eq!((ring[0], ring[1]), (1, 2));
}

#[test]
pub fn offloaded_values_pushed_since_rotation_are_readable_at_once() {
    let mut ring = AVec::<i32, 4>::new(2);
    ring.push_offloaded(1);
    let m = message_of(ring.push_offloaded(2));
    ring.push_offloaded(3);
    assert_eq!(ring.copy_debt(), 1);
    assert_eq!(ring.len(), 3);
    assert_eq!(ring[2], 3);
    assert_eq!(ring.handle(m), Handled::Refreshed);
    assert_eq!((ring[0], ring[1], ring[2]), (1, 2, 3));
}

#[test]
pub fn inline_push_retires_what_offloaded_pushes_left() {
    let mut ring = AVec::<i32, 4>::new(1);
    message_of(ring.push_offloaded(1));
    message_of(ring.push_offloaded(2));
    assert_eq!(ring.copy_debt(), 2);
    ring.push(3);
    assert_eq!(ring.copy_debt(), 2);
    ring.push(4);
    assert_eq!(ring.copy_debt(), 0);
    assert_eq!(ring.capacity(), 64);
    for i in 0..4 {
        assert_eq!(ring[i as usize], i + 1);
    }
}

#[test]
pub fn slot_positions_wrap_around_the_ring() {
    let mut ring = AVec::<usize, 2>::new(1);
    let mut slots = Vec::new();
    for i in 0..15usize {
        if let Pushed::Rotated(m) = ring.push_offloaded(i) {
            slots.push(m.slot);
            assert_eq!(ring.handle(m), Handled::Refreshed);
        }
    }
    assert_eq!(slots, vec![1, 0, 1, 0]);
    for i in 0..15usize {
        assert_eq!(ring[i], i);
    }
}

#[test]
pub fn drain_retires_every_stale_segment() {
    let mut ring = AVec::<i32, 4>::new(1);
    message_of(ring.push_offloaded(1));
    message_of(ring.push_offloaded(2));
    assert!(matches!(ring.push_offloaded(3), Pushed::Stored));
    assert_eq!((ring.copy_debt(), ring.capacity(), ring.active_capacity()), (2, 8, 4));
    ring.drain();
    assert_eq!((ring.copy_debt(), ring.capacity(), ring.active_capacity()), (0, 32, 4));
    assert_eq!(ring.len(), 3);
    assert_eq!((ring[0], ring[1], ring[2]), (1, 2, 3));
    ring.drain();
    assert_eq!((ring.copy_debt(), ring.capacity(), ring.len()), (0, 32, 3));
}

#[test]
pub fn every_segment_allocated_is_in_the_ring_or_released() {
    let mut ring = AVec::<usize, 4>::new(1);
    assert_eq!((ring.allocated(), ring.released()), (4, 0));
    for i in 0..1000usize {
        ring.push(i);
        assert_eq!(ring.allocated(), 4 + ring.released());
    }
    assert_eq!(ring.active_capacity(), 1024);
    assert_eq!((ring.allocated(), ring.released()), (14, 10));
    let mut lazy = AVec::<usize, 4>::new(1);
    assert!(matches!(lazy.push_offloaded(0), Pushed::Rotated(_)));
    assert_eq!((lazy.allocated(), lazy.released()), (4, 0));
    lazy.drain();
    assert_eq!((lazy.allocated(), lazy.released()), (5, 1));
}
