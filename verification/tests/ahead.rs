use pipevec::ahead::{
    AheadVec, GrowPhase, LoadFactor, DEFAULT_LOAD_DEN, DEFAULT_LOAD_NUM, DEFAULT_SEED,
};

#[test]
pub fn ahead_first_push_allocates_the_seed() {
    let mut v = AheadVec::<i32>::new();
    assert_eq!(v.len(), 0);
    assert_eq!(v.capacity(), 0);
    assert_eq!(v.grow_pow(), 0);
    assert!(!v.is_growing());
    assert!(v.should_grow());
    v.push(1);
    assert_eq!(v.len(), 1);
    assert_eq!(v.capacity(), 32);
    assert_eq!(v.grow_pow(), 1);
    assert_eq!(v.phase(), GrowPhase::Idle);
    assert_eq!(v[0], 1);
    assert_eq!((DEFAULT_SEED, DEFAULT_LOAD_NUM, DEFAULT_LOAD_DEN), (32, 3, 4));
}

#[test]
pub fn ahead_growth_is_claimed_beyond_three_quarters() {
    let mut v = AheadVec::<usize>::new();
    for i in 0..24usize {
        v.push(i);
    }
    assert_eq!(v.len(), 24);
    assert!(!v.should_grow());
    v.push(24);
    assert_eq!(v.phase(), GrowPhase::Idle);
    assert!(v.should_grow());
    v.push(25);
    assert_eq!(v.phase(), GrowPhase::Claimed);
    assert!(v.is_growing());
    assert!(!v.should_grow());
    assert_eq!(v.capacity(), 32);
    for i in 26..32usize {
        v.push(i);
    }
    assert_eq!((v.len(), v.capacity()), (32, 32));
    assert_eq!(v.phase(), GrowPhase::Claimed);
    v.push(32);
    assert_eq!((v.len(), v.capacity()), (33, 64));
    assert_eq!(v.phase(), GrowPhase::Idle);
    assert_eq!(v.grow_pow(), 2);
    for i in 0..33usize {
        assert_eq!(v[i], i);
    }
}

#[test]
pub fn ahead_load_factor_is_compared_exactly() {
    let mut v = AheadVec::<u8>::with_policy(10, LoadFactor { num: 1, den: 2 });
    v.push(0);
    assert_eq!(v.capacity(), 10);
    for _ in 1..5 {
        v.push(0);
    }
    assert_eq!(v.len(), 5);
    assert!(!v.should_grow());
    v.push(0);
    assert_eq!(v.len(), 6);
    assert!(v.should_grow());
    let mut eager = AheadVec::<u8>::with_policy(4, LoadFactor { num: 0, den: 1 });
    eager.push(0);
    assert!(eager.should_grow());
}

#[test]
pub fn ahead_two_step_growth_keeps_values_pushed_meanwhile() {
    let mut v = AheadVec::<i32>::with_policy(4, LoadFactor { num: 1, den: 2 });
    for i in 0..3 {
        v.push(i);
    }
    assert!(v.claim_grow());
    assert!(!v.claim_grow());
    assert_eq!(v.phase(), GrowPhase::Claimed);
    v.prepare_grow();
    assert_eq!(v.phase(), GrowPhase::Copied);
    assert_eq!(v.capacity(), 4);
    assert_eq!(v.grow_pow(), 2);
    assert_eq!(v.try_push(3), Ok(()));
    assert_eq!(v.len(), 4);
    assert_eq!(v.try_push(4), Err(4));
    assert_eq!(v.len(), 4);
    for i in 0..4 {
        assert_eq!(v[i as usize], i);
    }
    v.publish_grow();
    assert_eq!(v.phase(), GrowPhase::Idle);
    assert_eq!(v.capacity(), 8);
    assert_eq!(v.len(), 4);
    assert_eq!(v.grow_pow(), 2);
    assert_eq!(v.try_push(4), Ok(()));
    for i in 0..5 {
        assert_eq!(v[i as usize], i);
    }
}

#[test]
pub fn ahead_first_buffer_is_published_by_the_first_step() {
    let mut v = AheadVec::<i32>::with_policy(3, LoadFactor { num: 4, den: 5 });
    assert_eq!(v.try_push(1), Err(1));
    assert!(v.claim_grow());
    v.prepare_grow();
    assert_eq!(v.phase(), GrowPhase::Idle);
    assert_eq!(v.capacity(), 3);
    assert_eq!(v.grow_pow(), 1);
    assert_eq!(v.try_push(1), Ok(()));
    assert_eq!(v[0], 1);
}

#[test]
pub fn ahead_capacity_never_shrinks_and_covers_len() {
    let mut v = AheadVec::<usize>::new();
    let mut last = v.capacity();
    let mut pow = v.grow_pow();
    for i in 0..10000usize {
        v.push(i);
        assert!(v.capacity() >= last);
        assert!(v.capacity() >= v.len());
        assert!(v.grow_pow() >= pow);
        assert_eq!(v.len(), i + 1);
        last = v.capacity();
        pow = v.grow_pow();
    }
    assert_eq!(v.capacity(), 16384);
    assert_eq!(v.grow_pow(), 10);
    for i in 0..10000usize {
        assert_eq!(*v.get(i), i);
    }
}

#[test]
pub fn ahead_get_mut_overwrites_one_value_in_either_buffer() {
    let mut v = AheadVec::<i32>::with_policy(4, LoadFactor { num: 1, den: 2 });
    for i in 0..3 {
        v.push(i);
    }
    v.claim_grow();
    v.prepare_grow();
    v.push(3);
    *v.get_mut(1) = 10;
    *v.get_mut(3) = 30;
    assert_eq!((v[0], v[1], v[2], v[3]), (0, 10, 2, 30));
    v.publish_grow();
    assert_eq!((v[0], v[1], v[2], v[3]), (0, 10, 2, 30));
}

#[test]
pub fn ahead_two_producers_lose_and_repeat_nothing() {
    let mut v = AheadVec::<u32>::new();
    let mut sent = [0u32; 2];
    let mut turn = 0usize;
    let mut burst = 1u32;
    while sent[0] < 50000 || sent[1] < 50000 {
        let mut n = 0;
        while n < burst && sent[turn] < 50000 {
            v.push(turn as u32 * 50000 + sent[turn]);
            sent[turn] += 1;
            n += 1;
        }
        turn = 1 - turn;
        burst = burst % 7 + 1;
    }
    assert_eq!(v.len(), 100000);
    let mut seen = vec![false; 100000];
    let mut last = [None::<u32>; 2];
    for i in 0..100000usize {
        let x = v[i];
        assert!(!seen[x as usize]);
        seen[x as usize] = true;
        let who = (x / 50000) as usize;
        assert!(last[who].map_or(true, |l| l < x));
        last[who] = Some(x);
    }
    assert!(seen.iter().all(|s| *s));
}
