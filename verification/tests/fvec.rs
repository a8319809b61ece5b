use pipevec::fvec::FVec;
use std::time::Instant;

#[test]
pub fn fvec_init_test() {
    let bvec = FVec::<i32>::new(512);
    println!("Capacity: {}", bvec.capacity());
    assert_eq!(bvec.capacity(), 512);
}

#[test]
pub fn fvec_push_reallocation_test() {
    let size = 10000;
    let mut bvec = FVec::<i32>::new(512);
    for i in 0..size {
        bvec.push(i);
    }

    for i in 0..size {
        assert_eq!(bvec[i as usize], i);
    }
    assert_eq!(bvec.len(), size as usize);
}

#[test]
pub fn fvec_push_reallocation_bench_b_vec() {
    let size = 10000;
    let mut bvec = FVec::<i32>::new(512);
    let start = Instant::now();
    for i in 0..size {
        bvec.push(i);
    }
    let duration = start.elapsed();

    for i in 0..size {
        assert_eq!(bvec[i as usize], i);
    }

    println!("Time taken BVec: {:?}", duration);
}

#[test]
pub fn fvec_push_doubles_only_when_it_finds_the_segment_full() {
    let mut v = FVec::<u8>::new(2);
    v.push(1);
    assert_eq!((v.len(), v.capacity()), (1, 2));
    v.push(2);
    assert_eq!((v.len(), v.capacity()), (2, 2));
    v.push(3);
    assert_eq!((v.len(), v.capacity()), (3, 4));
    v.push(4);
    assert_eq!((v.len(), v.capacity()), (4, 4));
    v.push(5);
    assert_eq!((v.len(), v.capacity()), (5, 8));
    assert_eq!((v[0], v[1], v[2], v[3], v[4]), (1, 2, 3, 4, 5));
}

#[test]
pub fn fvec_push_fills_a_segment_without_changing_its_capacity() {
    let mut v = FVec::<usize>::new(1000);
    for i in 0..1000usize {
        v.push(i);
        assert_eq!(v.capacity(), 1000);
    }
    assert_eq!(v.len(), 1000);
    for i in 0..1000usize {
        assert_eq!(v[i], i);
    }
}

#[test]
pub fn fvec_push_raw_keeps_capacity() {
    let mut v = FVec::<u8>::new(2);
    v.push_raw(1);
    v.push_raw(2);
    assert_eq!(v.len(), 2);
    assert_eq!(v.capacity(), 2);
    assert_eq!(*v.get(0), 1);
    assert_eq!(*v.get(1), 2);
}

#[test]
pub fn fvec_capacity_never_shrinks_and_covers_len() {
    let mut v = FVec::<usize>::new(1);
    v.push_raw(0);
    let mut v = {
        let mut w = v.alloc_from_last();
        w.fill_from(&mut v);
        v.free();
        w
    };
    let mut last = v.capacity();
    for i in 1..2000usize {
        v.push(i);
        assert!(v.capacity() >= last);
        assert!(v.capacity() >= v.len());
        last = v.capacity();
    }
    assert_eq!(v.capacity(), 2048);
    for i in 0..2000usize {
        assert_eq!(v[i], i);
    }
}

#[test]
pub fn fvec_alloc_from_last_is_placeholder() {
    let mut old = FVec::<i32>::new(4);
    for i in 0..4 {
        old.push_raw(i);
    }
    let next = old.alloc_from_last();
    assert_eq!(next.capacity(), 8);
    assert_eq!(next.len(), 4);
    assert!(!next.is_free());
    assert_eq!(old.len(), 4);
    assert_eq!(old.capacity(), 4);
}

#[test]
pub fn fvec_fill_from_moves_values_to_same_cells() {
    let mut old = FVec::<String>::new(2);
    old.push_raw(String::from("a"));
    old.push_raw(String::from("b"));
    let mut next = old.alloc_from_last();
    next.push_raw(String::from("c"));
    assert_eq!(next.len(), 3);
    assert_eq!(next[2], "c");
    next.fill_from(&mut old);
    assert_eq!(next.len(), 3);
    assert_eq!(next.capacity(), 4);
    assert_eq!(next[0], "a");
    assert_eq!(next[1], "b");
    assert_eq!(next[2], "c");
    assert_eq!(old.len(), 2);
    assert_eq!(old.capacity(), 2);
    assert!(!old.is_free());
    old.free();
    assert!(old.is_free());
}

#[test]
pub fn fvec_fill_from_empty_source_changes_nothing() {
    let mut src = FVec::<i32>::new(0);
    let mut dst = FVec::<i32>::new(3);
    dst.push_raw(5);
    dst.fill_from(&mut src);
    assert_eq!(dst.len(), 1);
    assert_eq!(dst[0], 5);
    assert_eq!(src.len(), 0);
}

#[test]
pub fn fvec_free_keeps_len_and_capacity() {
    let mut v = FVec::<i32>::new(8);
    v.push_raw(1);
    v.push_raw(2);
    assert!(!v.is_free());
    v.free();
    assert!(v.is_free());
    assert_eq!(v.len(), 2);
    assert_eq!(v.capacity(), 8);
}

#[test]
pub fn fvec_get_mut_overwrites_one_cell() {
    let mut v = FVec::<i32>::new(4);
    v.push_raw(1);
    v.push_raw(2);
    v.push_raw(3);
    *v.get_mut(1) = 20;
    assert_eq!((v[0], v[1], v[2]), (1, 20, 3));
    assert_eq!(v.len(), 3);
}

#[test]
pub fn fvec_push_after_realloc_with_placeholder() {
    let seed = FVec::<i32>::new(2);
    let mut v = seed.alloc_from_last();
    assert_eq!((v.len(), v.capacity()), (2, 4));
    v.push(7);
    assert_eq!((v.len(), v.capacity()), (3, 4));
    v.push(8);
    assert_eq!((v.len(), v.capacity()), (4, 4));
    v.push(9);
    assert_eq!((v.len(), v.capacity()), (5, 8));
    assert_eq!(v[2], 7);
    assert_eq!(v[3], 8);
    assert_eq!(v[4], 9);
}
