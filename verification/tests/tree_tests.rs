use segtree::monoid::IntMin;
use segtree::monoid::IntSum;
use segtree::monoid::Leftmost;
use segtree::monoid::Monoid;
use segtree::tree::SegmentTree;

/// A small deterministic pseudo-random generator, enough to drive the
/// oracle comparison without any outside crate.
fn next_rand(state: &mut u64) -> u64 {
    *state = state
        .wrapping_mul(6364136223846793005)
        .wrapping_add(1442695040888963407);
    *state >> 33
}

/// Brute-force oracle: the left-to-right fold of the leaves in `[lo, hi)`.
fn oracle_sum(leaves: &[i64], lo: usize, hi: usize) -> i64 {
    let mut acc: i64 = 0;
    let mut i: usize = lo;
    while i < hi && i < leaves.len() {
        acc = acc.wrapping_add(leaves[i]);
        i += 1;
    }
    acc
}

#[test]
fn fresh_tree_queries_yield_identity() {
    let sizes: [usize; 5] = [0, 1, 2, 7, 100];
    for &n in sizes.iter() {
        let t = SegmentTree::<IntSum>::new(n);
        assert_eq!(t.get(0..n).val, 0);
        assert_eq!(t.get(0..1).val, 0);
        assert_eq!(t.get(3..17).val, 0);
        assert_eq!(t.get(0..usize::MAX).val, 0);
        let m = SegmentTree::<IntMin>::new(n);
        assert_eq!(m.get(0..n).val, i64::MAX);
        assert_eq!(m.get(5..9).val, i64::MAX);
    }
}

#[test]
fn point_readback_after_set() {
    let size: usize = 33;
    let mut t = SegmentTree::<IntSum>::new(size);
    let mut i: usize = 0;
    while i < size {
        let v: i64 = (i as i64) * 13 - 7;
        t.set(i, IntSum { val: v });
        assert_eq!(t.get(i..i + 1).val, v);
        i += 1;
    }
    // Every leaf still reads back after all the sets.
    let mut j: usize = 0;
    while j < size {
        assert_eq!(t.get(j..j + 1).val, (j as i64) * 13 - 7);
        j += 1;
    }
}

#[test]
fn random_sets_match_brute_force_oracle() {
    let mut state: u64 = 0x9e3779b97f4a7c15;
    let sizes: [usize; 4] = [1, 13, 64, 250];
    for &size in sizes.iter() {
        let mut t = SegmentTree::<IntSum>::new(size);
        let mut leaves: Vec<i64> = vec![0; size];
        let mut round: usize = 0;
        while round < 200 {
            let idx: usize = (next_rand(&mut state) as usize) % size;
            let val: i64 = (next_rand(&mut state) as i64) - (1 << 30);
            t.set(idx, IntSum { val });
            leaves[idx] = val;
            // Random range, including empty, reversed, single and overshooting ones.
            let lo: usize = (next_rand(&mut state) as usize) % (size + 3);
            let hi: usize = (next_rand(&mut state) as usize) % (size + 3);
            assert_eq!(t.get(lo..hi).val, oracle_sum(&leaves, lo, hi.min(size)));
            round += 1;
        }
        // Full-domain, empty and single-element ranges.
        assert_eq!(t.get(0..size).val, oracle_sum(&leaves, 0, size));
        assert_eq!(t.get(0..0).val, 0);
        assert_eq!(t.get(size / 2..size / 2 + 1).val, oracle_sum(&leaves, size / 2, (size / 2 + 1).min(size)));
    }
}

#[test]
fn out_of_range_set_is_a_no_op() {
    let size: usize = 9;
    let mut t = SegmentTree::<IntSum>::new(size);
    let mut i: usize = 0;
    while i < size {
        t.set(i, IntSum { val: (i as i64) + 1 });
        i += 1;
    }
    let before_full: i64 = t.get(0..size).val;
    let before_part: i64 = t.get(2..6).val;
    t.set(size, IntSum { val: 999 });
    t.set(size + 100, IntSum { val: -5 });
    t.set(usize::MAX, IntSum { val: 42 });
    assert_eq!(t.get(0..size).val, before_full);
    assert_eq!(t.get(2..6).val, before_part);
    let mut j: usize = 0;
    while j < size {
        assert_eq!(t.get(j..j + 1).val, (j as i64) + 1);
        j += 1;
    }
}

#[test]
fn non_commutative_combiner_folds_left_to_right() {
    // The leftmost-value combiner keeps its left operand whenever that
    // operand holds a value, so a left-to-right fold of filled leaves must
    // return the first leaf of the range; any other fold order would not.
    let size: usize = 6;
    let mut t = SegmentTree::<Leftmost>::new(size);
    let mut i: usize = 0;
    while i < size {
        t.set(i, Leftmost::Stored(100 + (i as i64)));
        i += 1;
    }
    assert_eq!(t.get(0..size), Leftmost::Stored(100));
    assert_eq!(t.get(1..3), Leftmost::Stored(101));
    assert_eq!(t.get(4..6), Leftmost::Stored(104));
    assert_eq!(t.get(5..6), Leftmost::Stored(105));
    assert_eq!(t.get(3..3), Leftmost::Vacant);
    // A vacant leaf passes the choice to the right: the fold of [vacant,
    // stored] is the stored value, still in left-to-right order.
    t.set(2, Leftmost::Vacant);
    assert_eq!(t.get(2..5), Leftmost::Stored(103));
}

#[test]
fn sum_scenario() {
    // Leaves [1, 2, 3, 4, 5] under integer sum with identity 0.
    let mut t = SegmentTree::<IntSum>::new(5);
    let mut i: usize = 0;
    while i < 5 {
        t.set(i, IntSum { val: (i as i64) + 1 });
        i += 1;
    }
    assert_eq!(t.get(1..4).val, 9);
    // "Add 10 at index 2" applied externally: read the leaf, add, write back.
    let old2: i64 = t.get(2..3).val;
    t.set(2, IntSum { val: 10 + old2 });
    assert_eq!(t.get(2..3).val, 13);
    assert_eq!(t.get(0..5).val, 25);
}

#[test]
fn min_scenario() {
    // Leaves [5, 1, 4, 2] under minimum with identity i64::MAX.
    let mut t = SegmentTree::<IntMin>::new(4);
    let vals: [i64; 4] = [5, 1, 4, 2];
    let mut i: usize = 0;
    while i < 4 {
        t.set(i, IntMin { val: vals[i] });
        i += 1;
    }
    assert_eq!(t.get(0..4).val, 1);
    assert_eq!(t.get(2..4).val, 2);
    t.set(2, IntMin { val: 10 });
    assert_eq!(t.get(0..4).val, 1);
    assert_eq!(t.get(2..4).val, 2);
}

#[test]
fn empty_range_returns_identity() {
    let mut t = SegmentTree::<IntSum>::new(8);
    let mut i: usize = 0;
    while i < 8 {
        t.set(i, IntSum { val: (i as i64) * 3 + 1 });
        i += 1;
    }
    let ks: [usize; 5] = [0, 1, 4, 8, 1000];
    for &k in ks.iter() {
        assert_eq!(t.get(k..k).val, 0);
    }
    // A reversed-looking range contributes nothing as well.
    assert_eq!(t.get(6..2).val, 0);
}

#[test]
fn size_zero_tree_is_inert() {
    let mut t = SegmentTree::<IntMin>::new(0);
    assert_eq!(t.get(0..0).val, i64::MAX);
    assert_eq!(t.get(0..10).val, i64::MAX);
    t.set(0, IntMin { val: 3 });
    t.set(7, IntMin { val: 3 });
    assert_eq!(t.get(0..10).val, i64::MAX);
}

#[test]
fn sum_combiner_wraps_on_overflow() {
    let mut t = SegmentTree::<IntSum>::new(2);
    t.set(0, IntSum { val: i64::MAX });
    t.set(1, IntSum { val: 1 });
    assert_eq!(t.get(0..2).val, i64::MIN);
    assert_eq!(IntSum::op(&IntSum { val: i64::MAX }, &IntSum { val: 1 }).val, i64::MIN);
}

#[test]
fn combiner_operations_match_their_identities() {
    assert_eq!(IntSum::id().val, 0);
    assert_eq!(IntMin::id().val, i64::MAX);
    assert_eq!(Leftmost::id(), Leftmost::Vacant);
    assert_eq!(IntSum::op(&IntSum { val: 4 }, &IntSum { val: -9 }).val, -5);
    assert_eq!(IntMin::op(&IntMin { val: 4 }, &IntMin { val: -9 }).val, -9);
    assert_eq!(
        Leftmost::op(&Leftmost::Stored(2), &Leftmost::Stored(3)),
        Leftmost::Stored(2)
    );
    assert_eq!(Leftmost::op(&Leftmost::Vacant, &Leftmost::Stored(3)), Leftmost::Stored(3));
}
