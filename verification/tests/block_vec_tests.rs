use pipevec::block_vec::BVec;

#[test]
pub fn push_test() {
    let mut bvec = BVec::<i32>::new(32);
    bvec.push(1);
    assert_eq!(bvec.len(), 1);
    assert_eq!(bvec.capacity(), 32);
}
