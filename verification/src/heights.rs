//! Block hashes by height.
use std::collections::HashMap;
use vstd::prelude::*;

verus! {

broadcast use vstd::std_specs::hash::group_hash_axioms;

use crate::ledger::Text;

/// Hashes by height with the hashes as characters.
pub open spec fn hashes_of(m: Map<u32, String>) -> Map<u32, Text> {
    m.map_values(|s: String| s@)
}

/// No hashes.
pub fn no_hashes() -> (r: HashMap<u32, String>)
    ensures
        hashes_of(r@) == Map::<u32, Text>::empty(),
{
    let r: HashMap<u32, String> = HashMap::new();
    assert(hashes_of(r@) =~= Map::<u32, Text>::empty());
    r
}

/// The hash at `h`.
pub fn hash_at(m: &HashMap<u32, String>, h: u32) -> (r: Option<&String>)
    ensures
        match r {
            Some(s) => hashes_of(m@).contains_key(h) && s@ == hashes_of(m@)[h],
            None => !hashes_of(m@).contains_key(h),
        },
{
    m.get(&h)
}

/// Sets the hash at `h`.
pub fn record_hash(m: &mut HashMap<u32, String>, h: u32, hash: String)
    ensures
        hashes_of(final(m)@) == hashes_of(old(m)@).insert(h, hash@),
{
    m.insert(h, hash);
    assert(hashes_of(m@) =~= hashes_of(old(m)@).insert(h, hash@));
}

/// The heights that have a hash, in the order of a walk.
fn recorded_heights(m: &HashMap<u32, String>) -> (r: Vec<u32>)
    ensures
        forall|h: u32| #[trigger] r@.contains(h) <==> m@.contains_key(h),
{
    let mut out: Vec<u32> = Vec::new();
    for h in it: m.keys()
        invariant
            it.seq().unref().to_set() == m@.dom(),
            out@ == it.seq().unref().take(it.index() as int),
            it.index() == it.seq().len() ==> out@ == it.seq().unref(),
    {
        out.push(*h);
    }
    assert forall|h: u32| #[trigger] out@.contains(h) <==> m@.contains_key(h) by {
        assert(out@.to_set().contains(h) <==> m@.dom().contains(h));
    }
    out
}

/// Drops the hashes at heights below `oldest`.
pub fn keep_from(m: &mut HashMap<u32, String>, oldest: u32)
    ensures
        hashes_of(final(m)@) == hashes_of(old(m)@).restrict(Set::new(|h: u32| oldest <= h)),
{
    let heights = recorded_heights(m);
    let ghost start = m@;
    let mut i: usize = 0;
    while i < heights.len()
        invariant
            i <= heights@.len(),
            forall|h: u32| #[trigger] m@.contains_key(h) <==> start.contains_key(h) && (oldest <= h
                || !heights@.take(i as int).contains(h)),
            forall|h: u32| #[trigger] m@.contains_key(h) ==> m@[h] == start[h],
        decreases heights@.len() - i,
    {
        let h: u32 = heights[i];
        let ghost before = heights@.take(i as int);
        let ghost after = heights@.take(i + 1);
        if h < oldest {
            m.remove(&h);
        }
        proof {
            assert(after =~= before.push(h));
            assert forall|g: u32| after.contains(g) <==> before.contains(g) || g == h by {
                if before.contains(g) {
                    let j = choose|j: int| 0 <= j < before.len() && before[j] == g;
                    assert(after[j] == g);
                }
                if g == h {
                    assert(after[i as int] == g);
                }
                if after.contains(g) && g != h {
                    let j = choose|j: int| 0 <= j < after.len() && after[j] == g;
                    assert(before[j] == g);
                }
            }
        }
        i += 1;
    }
    assert(heights@.take(heights@.len() as int) =~= heights@);
    assert(hashes_of(m@) =~= hashes_of(start).restrict(Set::new(|h: u32| oldest <= h)));
}

// ---------------------------------------------------------------------------
// The latest heights.
// ---------------------------------------------------------------------------

/// The `n` latest recorded heights from `top` down, latest first; fewer where there are no
/// more.
pub open spec fn latest_from(hashes: Map<u32, Text>, top: int, n: nat) -> Seq<u32>
    decreases top + 1,
{
    if top < 0 || n == 0 {
        Seq::empty()
    } else if hashes.contains_key(top as u32) {
        seq![top as u32] + latest_from(hashes, top - 1, (n - 1) as nat)
    } else {
        latest_from(hashes, top - 1, n)
    }
}

/// Heights without a hash are passed over.
proof fn lemma_latest_gap(hashes: Map<u32, Text>, top: int, bottom: int, n: nat)
    requires
        -1 <= bottom <= top <= u32::MAX,
        forall|h: u32| bottom < h <= top ==> !#[trigger] hashes.contains_key(h),
    ensures
        latest_from(hashes, top, n) == latest_from(hashes, bottom, n),
    decreases top - bottom,
{
    if bottom < top {
        assert(!hashes.contains_key(top as u32));
        lemma_latest_gap(hashes, top - 1, bottom, n);
    }
}

/// The largest of `heights` below `bound`.
fn largest_below(heights: &Vec<u32>, bound: u64) -> (r: Option<u32>)
    ensures
        match r {
            Some(m) => {
                &&& heights@.contains(m)
                &&& m < bound
                &&& forall|h: u32| #[trigger] heights@.contains(h) && h < bound ==> h <= m
            },
            None => forall|h: u32| #[trigger] heights@.contains(h) ==> h >= bound,
        },
{
    let mut best: Option<u32> = None;
    let mut i: usize = 0;
    while i < heights.len()
        invariant
            i <= heights@.len(),
            match best {
                Some(m) => {
                    &&& heights@.contains(m)
                    &&& m < bound
                    &&& forall|j: int| 0 <= j < i && heights@[j] < bound ==> #[trigger] heights@[j] <= m
                },
                None => forall|j: int| 0 <= j < i ==> #[trigger] heights@[j] >= bound,
            },
        decreases heights@.len() - i,
    {
        let h: u32 = heights[i];
        assert(heights@.contains(h));
        if (h as u64) < bound {
            match best {
                Some(m) => if m < h {
                    best = Some(h);
                },
                None => {
                    best = Some(h);
                },
            }
        }
        i += 1;
    }
    best
}

/// The `n` latest recorded heights, latest first.
pub fn latest_heights(m: &HashMap<u32, String>, n: usize) -> (r: Vec<u32>)
    ensures
        r@ == latest_from(hashes_of(m@), u32::MAX as int, n as nat),
{
    let ghost hashes = hashes_of(m@);
    let heights = recorded_heights(m);
    let mut out: Vec<u32> = Vec::new();
    let mut bound: u64 = u32::MAX as u64 + 1;
    assert(out@ + latest_from(hashes, u32::MAX as int, n as nat) =~= latest_from(
        hashes,
        u32::MAX as int,
        n as nat,
    ));
    while out.len() < n
        invariant
            hashes == hashes_of(m@),
            forall|h: u32| #[trigger] heights@.contains(h) <==> m@.contains_key(h),
            bound <= u32::MAX + 1,
            out@.len() <= n,
            latest_from(hashes, u32::MAX as int, n as nat) == out@ + latest_from(
                hashes,
                bound - 1,
                (n - out@.len()) as nat,
            ),
        decreases n - out@.len(),
    {
        let ghost left = (n - out@.len()) as nat;
        match largest_below(&heights, bound) {
            Some(h) => {
                let ghost before = out@;
                proof {
                    assert forall|g: u32| h < g <= bound - 1 implies !#[trigger] hashes.contains_key(
                        g,
                    ) by {
                        assert(heights@.contains(g) <==> m@.contains_key(g));
                    }
                    lemma_latest_gap(hashes, bound - 1, h as int, left);
                    assert(heights@.contains(h) && hashes.contains_key(h));
                }
                out.push(h);
                bound = h as u64;
                proof {
                    let rest = latest_from(hashes, h - 1, (left - 1) as nat);
                    assert(before + (seq![h] + rest) =~= out@ + rest);
                }
            },
            None => {
                proof {
                    assert forall|g: u32| -1 < g <= bound - 1 implies !#[trigger] hashes.contains_key(
                        g,
                    ) by {
                        assert(heights@.contains(g) <==> m@.contains_key(g));
                    }
                    lemma_latest_gap(hashes, bound - 1, -1, left);
                    assert(out@ + latest_from(hashes, -1, left) =~= out@);
                }
                return out;
            },
        }
    }
    assert(out@ + latest_from(hashes, bound - 1, 0) =~= out@);
    out
}

/// The latest heights are recorded ones in descending order, at most as many as asked for,
/// and no other recorded height comes before one of them; fewer than asked for are all
/// that there are.
pub proof fn law_latest_heights_are_the_latest(hashes: Map<u32, Text>, top: int, n: nat)
    requires
        -1 <= top <= u32::MAX,
    ensures
        ({
            let s = latest_from(hashes, top, n);
            &&& s.len() <= n
            &&& forall|i: int, j: int| 0 <= i < j < s.len() ==> s[i] > s[j]
            &&& forall|i: int| 0 <= i < s.len() ==> hashes.contains_key(#[trigger] s[i]) && s[i] <= top
            &&& forall|h: u32| #[trigger]
                hashes.contains_key(h) && h <= top && !s.contains(h) ==> s.len() == n && forall|i: int|
                    0 <= i < s.len() ==> h < #[trigger] s[i]
        }),
    decreases top + 1,
{
    let s = latest_from(hashes, top, n);
    if top >= 0 && n > 0 {
        if hashes.contains_key(top as u32) {
            let rest = latest_from(hashes, top - 1, (n - 1) as nat);
            law_latest_heights_are_the_latest(hashes, top - 1, (n - 1) as nat);
            assert(s[0] == top);
            assert forall|i: int| 0 < i < s.len() implies #[trigger] s[i] == rest[i - 1] by {}
            assert forall|h: u32| #[trigger]
                hashes.contains_key(h) && h <= top && !s.contains(h) implies s.len() == n && forall|
                i: int,
            |
                0 <= i < s.len() ==> h < #[trigger] s[i] by {
                assert(h != top) by {
                    if h == top {
                        assert(s[0] == h);
                    }
                }
                if rest.contains(h) {
                    let j = choose|j: int| 0 <= j < rest.len() && rest[j] == h;
                    assert(s[j + 1] == h);
                }
            }
        } else {
            law_latest_heights_are_the_latest(hashes, top - 1, n);
        }
    }
}

} // verus!
