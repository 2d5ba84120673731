use vstd::prelude::*;

verus! {

/// Position, within `idx`, of the first entry whose key is the largest.
pub open spec fn first_max_pos(keys: Seq<i32>, idx: Seq<usize>) -> int
    decreases idx.len(),
{
    if idx.len() <= 1 {
        0
    } else {
        let p = first_max_pos(keys, idx.drop_last());
        if keys[idx.last() as int] > keys[idx[p] as int] {
            idx.len() - 1
        } else {
            p
        }
    }
}

/// The entries of `idx` ordered by key, largest first; entries with equal keys
/// keep their relative order.
pub open spec fn descending_from(keys: Seq<i32>, idx: Seq<usize>) -> Seq<usize>
    decreases idx.len(),
{
    if idx.len() == 0 {
        Seq::empty()
    } else {
        proof {
            lemma_first_max_pos_in_range(keys, idx);
        }
        let p = first_max_pos(keys, idx);
        seq![idx[p]] + descending_from(keys, idx.remove(p))
    }
}

/// The positions of `keys`, ordered by key from largest to smallest; positions
/// with equal keys keep their order.
pub open spec fn descending_order(keys: Seq<i32>) -> Seq<usize> {
    descending_from(keys, Seq::new(keys.len(), |i: int| i as usize))
}

pub proof fn lemma_first_max_pos_in_range(keys: Seq<i32>, idx: Seq<usize>)
    requires
        idx.len() > 0,
    ensures
        0 <= first_max_pos(keys, idx) < idx.len(),
    decreases idx.len(),
{
    if idx.len() > 1 {
        lemma_first_max_pos_in_range(keys, idx.drop_last());
    }
}

/// The first largest entry: no entry has a larger key, and every entry before
/// it has a strictly smaller one.
pub proof fn lemma_first_max_pos(keys: Seq<i32>, idx: Seq<usize>)
    requires
        idx.len() > 0,
    ensures
        0 <= first_max_pos(keys, idx) < idx.len(),
        forall|j: int|
            0 <= j < idx.len() ==> keys[#[trigger] idx[j] as int] <= keys[idx[first_max_pos(
                keys,
                idx,
            )] as int],
        forall|j: int|
            0 <= j < first_max_pos(keys, idx) ==> keys[#[trigger] idx[j] as int] < keys[idx[first_max_pos(
                keys,
                idx,
            )] as int],
    decreases idx.len(),
{
    if idx.len() > 1 {
        let s = idx.drop_last();
        lemma_first_max_pos(keys, s);
        let p0 = first_max_pos(keys, s);
        assert(s[p0] == idx[p0]);
        assert forall|j: int| 0 <= j < s.len() implies #[trigger] idx[j] == s[j] by {}
    }
}

/// Ordering keeps the entries' count and draws every entry from `idx`.
pub proof fn lemma_descending_from_bounded(keys: Seq<i32>, idx: Seq<usize>, bound: int)
    requires
        forall|j: int| 0 <= j < idx.len() ==> idx[j] < bound,
    ensures
        descending_from(keys, idx).len() == idx.len(),
        forall|k: int| 0 <= k < idx.len() ==> #[trigger] descending_from(keys, idx)[k] < bound,
    decreases idx.len(),
{
    if idx.len() > 0 {
        lemma_first_max_pos_in_range(keys, idx);
        let p = first_max_pos(keys, idx);
        let rest = idx.remove(p);
        assert forall|j: int| 0 <= j < rest.len() implies rest[j] < bound by {
            if j < p {
                assert(rest[j] == idx[j]);
            } else {
                assert(rest[j] == idx[j + 1]);
            }
        }
        lemma_descending_from_bounded(keys, rest, bound);
        let r = descending_from(keys, idx);
        assert forall|k: int| 0 <= k < idx.len() implies #[trigger] r[k] < bound by {
            if k > 0 {
                assert(r[k] == descending_from(keys, rest)[k - 1]);
            }
        }
    }
}

/// The positions of `keys` in descending order are `keys.len()` positions of
/// `keys`.
pub proof fn lemma_descending_order_bounded(keys: Seq<i32>)
    ensures
        descending_order(keys).len() == keys.len(),
        forall|k: int| 0 <= k < keys.len() ==> #[trigger] descending_order(keys)[k] < keys.len(),
{
    lemma_descending_from_bounded(keys, Seq::new(keys.len(), |i: int| i as usize), keys.len() as int);
}

/// The entries of `idx` are strictly increasing.
pub open spec fn increasing(idx: Seq<usize>) -> bool {
    forall|a: int, b: int| 0 <= a < b < idx.len() ==> #[trigger] idx[a] < #[trigger] idx[b]
}

/// Entry `x` is ranked before entry `y`: a larger key, or an equal key and an
/// earlier position.
pub open spec fn ranked_before(keys: Seq<i32>, x: usize, y: usize) -> bool {
    keys[x as int] > keys[y as int] || (keys[x as int] == keys[y as int] && x < y)
}

/// Every entry of the ordering comes from `idx`.
pub proof fn lemma_descending_from_members(keys: Seq<i32>, idx: Seq<usize>)
    ensures
        descending_from(keys, idx).len() == idx.len(),
        forall|b: int|
            0 <= b < idx.len() ==> exists|j: int| 0 <= j < idx.len() && #[trigger] descending_from(keys, idx)[b] == idx[j],
    decreases idx.len(),
{
    if idx.len() > 0 {
        lemma_first_max_pos_in_range(keys, idx);
        let p = first_max_pos(keys, idx);
        let rest = idx.remove(p);
        lemma_descending_from_members(keys, rest);
        let q = descending_from(keys, rest);
        let r = descending_from(keys, idx);
        assert(r == seq![idx[p]] + q);
        assert forall|b: int| 0 <= b < idx.len() implies exists|j: int| 0 <= j < idx.len() && #[trigger] r[b] == idx[j] by {
            if b == 0 {
                assert(r[0] == idx[p]);
            } else {
                assert(r[b] == q[b - 1]);
                let j = choose|j: int| 0 <= j < rest.len() && q[b - 1] == rest[j];
                if j < p {
                    assert(rest[j] == idx[j]);
                } else {
                    assert(rest[j] == idx[j + 1]);
                }
            }
        }
    }
}

/// Every entry of `idx` occurs in the ordering.
pub proof fn lemma_descending_from_covers(keys: Seq<i32>, idx: Seq<usize>)
    ensures
        forall|j: int|
            0 <= j < idx.len() ==> #[trigger] descending_from(keys, idx).contains(idx[j]),
    decreases idx.len(),
{
    if idx.len() > 0 {
        lemma_first_max_pos_in_range(keys, idx);
        let p = first_max_pos(keys, idx);
        let rest = idx.remove(p);
        lemma_descending_from_covers(keys, rest);
        let q = descending_from(keys, rest);
        let r = descending_from(keys, idx);
        assert(r == seq![idx[p]] + q);
        assert forall|j: int| 0 <= j < idx.len() implies #[trigger] r.contains(idx[j]) by {
            if j == p {
                assert(r[0] == idx[j]);
            } else {
                let j2 = if j < p { j } else { j - 1 };
                assert(rest[j2] == idx[j]);
                assert(q.contains(rest[j2]));
                let b = choose|b: int| 0 <= b < q.len() && q[b] == rest[j2];
                assert(r[b + 1] == idx[j]);
            }
        }
    }
}

/// Over increasing positions, the ordering puts larger keys first and keeps
/// equal keys in position order.
pub proof fn lemma_descending_from_sorted(keys: Seq<i32>, idx: Seq<usize>)
    requires
        increasing(idx),
    ensures
        forall|a: int, b: int|
            0 <= a < b < idx.len() ==> ranked_before(
                keys,
                #[trigger] descending_from(keys, idx)[a],
                #[trigger] descending_from(keys, idx)[b],
            ),
    decreases idx.len(),
{
    if idx.len() > 0 {
        lemma_first_max_pos(keys, idx);
        let p = first_max_pos(keys, idx);
        let rest = idx.remove(p);
        assert forall|a: int, b: int| 0 <= a < b < rest.len() implies #[trigger] rest[a] < #[trigger] rest[b] by {
            let a2 = if a < p { a } else { a + 1 };
            let b2 = if b < p { b } else { b + 1 };
            assert(rest[a] == idx[a2]);
            assert(rest[b] == idx[b2]);
        }
        lemma_descending_from_sorted(keys, rest);
        lemma_descending_from_members(keys, rest);
        lemma_descending_from_members(keys, idx);
        let q = descending_from(keys, rest);
        let r = descending_from(keys, idx);
        assert(r == seq![idx[p]] + q);
        assert forall|a: int, b: int| 0 <= a < b < idx.len() implies ranked_before(keys, #[trigger] r[a], #[trigger] r[b]) by {
            if a == 0 {
                assert(r[b] == q[b - 1]);
                let j = choose|j: int| 0 <= j < rest.len() && q[b - 1] == rest[j];
                let j2 = if j < p { j } else { j + 1 };
                assert(rest[j] == idx[j2]);
                assert(keys[idx[j2] as int] <= keys[idx[p] as int]);
                if j2 < p {
                    assert(keys[idx[j2] as int] < keys[idx[p] as int]);
                } else {
                    assert(idx[p] < idx[j2]);
                }
            } else {
                assert(r[a] == q[a - 1]);
                assert(r[b] == q[b - 1]);
            }
        }
    }
}

/// `descending_order(keys)` is a stable sort of the positions of `keys`,
/// largest key first: every position occurs exactly once, and of any two
/// entries the earlier has the larger key, or the same key and the smaller
/// position.
pub proof fn lemma_descending_order_sorted(keys: Seq<i32>)
    requires
        keys.len() <= usize::MAX,
    ensures
        descending_order(keys).len() == keys.len(),
        forall|b: int| 0 <= b < keys.len() ==> #[trigger] descending_order(keys)[b] < keys.len(),
        forall|j: int| 0 <= j < keys.len() ==> #[trigger] descending_order(keys).contains(j as usize),
        forall|a: int, b: int|
            0 <= a < b < keys.len() ==> ranked_before(
                keys,
                #[trigger] descending_order(keys)[a],
                #[trigger] descending_order(keys)[b],
            ),
{
    let iden = Seq::new(keys.len(), |i: int| i as usize);
    assert forall|a: int, b: int| 0 <= a < b < iden.len() implies #[trigger] iden[a] < #[trigger] iden[b] by {}
    lemma_descending_from_sorted(keys, iden);
    lemma_descending_from_covers(keys, iden);
    lemma_descending_order_bounded(keys);
    assert forall|j: int| 0 <= j < keys.len() implies #[trigger] descending_order(keys).contains(j as usize) by {
        assert(iden[j] == j as usize);
    }
}

/// Position, within `idx`, of the first entry with the largest key.
fn first_max_position(keys: &Vec<i32>, idx: &Vec<usize>) -> (p: usize)
    requires
        idx@.len() > 0,
        forall|j: int| 0 <= j < idx@.len() ==> idx@[j] < keys@.len(),
    ensures
        p == first_max_pos(keys@, idx@),
{
    let mut best: usize = 0;
    let mut j: usize = 1;
    while j < idx.len()
        invariant
            1 <= j <= idx@.len(),
            forall|k: int| 0 <= k < idx@.len() ==> idx@[k] < keys@.len(),
            best == first_max_pos(keys@, idx@.subrange(0, j as int)),
            best < j,
        decreases idx@.len() - j,
    {
        proof {
            let sub = idx@.subrange(0, j as int + 1);
            assert(sub.drop_last() =~= idx@.subrange(0, j as int));
        }
        if keys[idx[j]] > keys[idx[best]] {
            best = j;
        }
        j = j + 1;
    }
    assert(idx@.subrange(0, j as int) =~= idx@);
    best
}

/// The positions of `keys` ordered by key, largest first, equal keys in their
/// order of position (a stable sort).
pub fn descending_positions(keys: &Vec<i32>) -> (r: Vec<usize>)
    ensures
        r@ == descending_order(keys@),
{
    let mut rem: Vec<usize> = Vec::new();
    let mut i: usize = 0;
    while i < keys.len()
        invariant
            i <= keys@.len(),
            rem@ =~= Seq::new(i as nat, |k: int| k as usize),
        decreases keys@.len() - i,
    {
        rem.push(i);
        i = i + 1;
    }
    let mut out: Vec<usize> = Vec::new();
    while rem.len() > 0
        invariant
            forall|k: int| 0 <= k < rem@.len() ==> rem@[k] < keys@.len(),
            out@ + descending_from(keys@, rem@) == descending_order(keys@),
        decreases rem@.len(),
    {
        let p = first_max_position(keys, &rem);
        proof {
            lemma_first_max_pos(keys@, rem@);
        }
        let ghost before = rem@;
        let x = rem.remove(p);
        out.push(x);
        proof {
            assert(descending_from(keys@, before) == seq![x] + descending_from(keys@, rem@));
            assert(out@ + descending_from(keys@, rem@) =~= (out@.drop_last() + seq![x])
                + descending_from(keys@, rem@));
        }
    }
    assert(out@ + descending_from(keys@, rem@) =~= out@);
    out
}

} // verus!
