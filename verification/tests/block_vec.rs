use pipevec::block_vec::BVec;
use std::time::Instant;

#[test]
pub fn block_vec_init_test() {
    let bvec = BVec::<i32>::new(512);
    println!("Capacity: {}", bvec.capacity());
    assert_eq!(bvec.capacity(), 512);
}

#[test]
pub fn block_vec_push_reallocation_test() {
    let size = 10000;
    let mut bvec = BVec::<i32>::new(512);
    for i in 0..size {
        bvec.push(i);
    }

    for i in 0..size {
        assert_eq!(bvec[i as usize], i);
    }
    assert_eq!(bvec.len(), size as usize);
}

#[test]
pub fn block_vec_push_reallocation_bench_b_vec() {
    let size = 1000000;
    let mut bvec = BVec::<i32>::new(512);
    let start = Instant::now();
    for i in 0..size {
        bvec.push(i);
    }
    let duration = start.elapsed();

    for i in 0..size {
        assert_eq!(bvec[i as usize], i);
    }

    println!("Time taken BVec: {:?}", duration);
}

#[test]
pub fn block_vec_push_doubles_as_soon_as_it_fills_the_buffer() {
    let mut v = BVec::<u8>::new(2);
    v.push(1);
    assert_eq!((v.len(), v.capacity()), (1, 2));
    v.push(2);
    assert_eq!((v.len(), v.capacity()), (2, 4));
    v.push(3);
    assert_eq!((v.len(), v.capacity()), (3, 4));
    v.push(4);
    assert_eq!((v.len(), v.capacity()), (4, 8));
    v.push(5);
    assert_eq!((v.len(), v.capacity()), (5, 8));
    assert_eq!((v[0], v[1], v[2], v[3], v[4]), (1, 2, 3, 4, 5));
}

#[test]
pub fn block_vec_capacity_never_shrinks_and_covers_len() {
    let mut v = BVec::<usize>::new(3);
    let mut last = v.capacity();
    for i in 0..3000usize {
        v.push(i);
        assert!(v.capacity() >= last);
        assert!(v.capacity() > v.len());
        last = v.capacity();
    }
    assert_eq!(v.len(), 3000);
    assert_eq!(v.capacity(), 3072);
}

#[test]
pub fn block_vec_alloc_from_last_is_placeholder() {
    let old = BVec::<i32>::new(4);
    let mut next = old.alloc_from_last();
    assert_eq!(next.capacity(), 8);
    assert_eq!(next.len(), 4);
    next.push(9);
    assert_eq!(next.len(), 5);
    assert_eq!(next[4], 9);
    assert_eq!(*next.get(4), 9);
}

#[test]
pub fn block_vec_free_keeps_len_and_capacity() {
    let mut v = BVec::<i32>::new(8);
    v.push(1);
    assert!(!v.is_free());
    v.free();
    assert!(v.is_free());
    assert_eq!(v.len(), 1);
    assert_eq!(v.capacity(), 8);
}

#[test]
pub fn block_vec_get_mut_overwrites_one_cell() {
    let mut v = BVec::<i32>::new(4);
    v.push(1);
    v.push(2);
    *v.get_mut(0) = 10;
    assert_eq!((v[0], v[1]), (10, 2));
}
