use pipevec::ahead::AheadVec;
use pipevec::avec::AVec;
use pipevec::block_vec::BVec;
use pipevec::fvec::FVec;

#[test]
pub fn append_order_holds_in_every_container() {
    let vals: Vec<u64> = (0..777u64).map(|i| i * i + 1).collect();
    let mut f = FVec::<u64>::new(1);
    let mut b = BVec::<u64>::new(1);
    let mut a = AVec::<u64, 4>::new(1);
    let mut h = AheadVec::<u64>::new();
    f.push_raw(0);
    let mut f = {
        let mut w = f.alloc_from_last();
        w.fill_from(&mut f);
        w
    };
    b.push(0);
    a.push(0);
    h.push(0);
    for v in &vals {
        f.push(*v);
        b.push(*v);
        a.push(*v);
        h.push(*v);
    }
    for (i, v) in vals.iter().enumerate() {
        assert_eq!(f[i + 1], *v);
        assert_eq!(b[i + 1], *v);
        assert_eq!(a[i + 1], *v);
        assert_eq!(h[i + 1], *v);
    }
    assert_eq!(f.len(), 778);
    assert_eq!(b.len(), 778);
    assert_eq!(a.len(), 778);
    assert_eq!(h.len(), 778);
}
