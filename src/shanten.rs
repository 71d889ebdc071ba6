//! Shanten numbers (distance from a winning hand) and effective tiles.
use vstd::prelude::*;
use crate::types::{
    as_ints, calculate_tile_counts, counts_of, kind_at, lemma_count_idx_bounds, lemma_counts_sum,
    suited_idx, sum_range, yaochu_at, yaochu_idx, TileId, MAX_TILES, NUM_KINDS,
};

verus! {

/// Worth of a (melds, partial sets) pair: two per meld, one per partial set.
pub open spec fn worth(r: (int, int)) -> int {
    2 * r.0 + r.1
}

/// The better of two pairs: the higher worth, then the more melds; `a` on a tie.
pub open spec fn better(a: (int, int), b: (int, int)) -> (int, int) {
    if worth(b) > worth(a) || (worth(b) == worth(a) && b.0 > a.0) {
        b
    } else {
        a
    }
}

/// One more meld.
pub open spec fn plus_meld(r: (int, int)) -> (int, int) {
    (r.0 + 1, r.1)
}

/// One more partial set.
pub open spec fn plus_partial(r: (int, int)) -> (int, int) {
    (r.0, r.1 + 1)
}

/// Counts with one tile taken at `a`.
pub open spec fn take1(c: Seq<int>, a: int) -> Seq<int> {
    c.update(a, c[a] - 1)
}

/// Counts with a run taken from `i`, `i + 1`, `i + 2`.
pub open spec fn take_run(c: Seq<int>, i: int) -> Seq<int> {
    take1(take1(take1(c, i), i + 1), i + 2)
}

/// Measure of the suit search: the count at the current rank.
pub open spec fn at(c: Seq<int>, i: int) -> int {
    if 0 <= i < c.len() && c[i] > 0 { c[i] } else { 0 }
}

/// Best (melds, partial sets) into which the ranks from `i` on of one suit's
/// nine counts can be split, the rest left over. Melds are triplets and runs;
/// partial sets are pairs and two tiles one or two ranks apart.
pub open spec fn suit_best(c: Seq<int>, i: int) -> (int, int)
    decreases 9 - i, at(c, i),
{
    if i < 0 || i >= 9 || c.len() != 9 {
        (0, 0)
    } else if c[i] <= 0 {
        suit_best(c, i + 1)
    } else {
        let r0 = suit_best(take1(c, i), i);
        let r1 = if c[i] >= 3 {
            better(r0, plus_meld(suit_best(c.update(i, c[i] - 3), i)))
        } else {
            r0
        };
        let r2 = if i <= 6 && c[i + 1] > 0 && c[i + 2] > 0 {
            better(r1, plus_meld(suit_best(take_run(c, i), i)))
        } else {
            r1
        };
        let r3 = if c[i] >= 2 {
            better(r2, plus_partial(suit_best(c.update(i, c[i] - 2), i)))
        } else {
            r2
        };
        let r4 = if i <= 7 && c[i + 1] > 0 {
            better(r3, plus_partial(suit_best(take1(take1(c, i), i + 1), i)))
        } else {
            r3
        };
        if i <= 6 && c[i + 2] > 0 {
            better(r4, plus_partial(suit_best(take1(take1(c, i), i + 2), i)))
        } else {
            r4
        }
    }
}

/// The ranks from `i` on of one suit split exactly into `k` melds.
pub open spec fn suit_melds(c: Seq<int>, i: int, k: int) -> bool
    decreases 9 - i, at(c, i),
{
    if i < 0 || i >= 9 || c.len() != 9 {
        k == 0
    } else if c[i] <= 0 {
        suit_melds(c, i + 1, k)
    } else {
        k > 0 && ((c[i] >= 3 && suit_melds(c.update(i, c[i] - 3), i, k - 1)) || (i <= 6 && c[i
            + 1] > 0 && c[i + 2] > 0 && suit_melds(take_run(c, i), i, k - 1)))
    }
}

/// Counts that are all non-negative.
pub open spec fn nonneg(c: Seq<int>) -> bool {
    forall|j: int| 0 <= j < c.len() ==> c[j] >= 0
}

/// Changing one count changes each sum that covers it by the difference.
pub proof fn lemma_sum_update(c: Seq<int>, j: int, v: int, lo: int, hi: int)
    requires
        0 <= j < c.len(),
        0 <= lo,
        hi <= c.len(),
    ensures
        sum_range(c.update(j, v), lo, hi) == sum_range(c, lo, hi) + if lo <= j < hi {
            v - c[j]
        } else {
            0
        },
    decreases hi - lo,
{
    if hi > lo {
        lemma_sum_update(c, j, v, lo, hi - 1);
    }
}

/// A sum splits off its first count.
pub proof fn lemma_sum_front(c: Seq<int>, lo: int, hi: int)
    requires
        lo < hi,
    ensures
        sum_range(c, lo, hi) == c[lo] + sum_range(c, lo + 1, hi),
    decreases hi - lo,
{
    if hi - 1 > lo {
        lemma_sum_front(c, lo, hi - 1);
    } else {
        assert(sum_range(c, lo, lo) == 0);
        assert(sum_range(c, lo + 1, hi) == 0);
    }
}

/// A sum of non-negative counts is non-negative.
pub proof fn lemma_sum_nonneg(c: Seq<int>, lo: int, hi: int)
    requires
        nonneg(c),
        0 <= lo,
        hi <= c.len(),
    ensures
        sum_range(c, lo, hi) >= 0,
    decreases hi - lo,
{
    if hi > lo {
        lemma_sum_nonneg(c, lo, hi - 1);
    }
}

/// What a split of the suit can be worth: its melds and partial sets use
/// distinct tiles, and a split that uses every tile in melds is a meld split.
pub open spec fn sound_split(c: Seq<int>, i: int, r: (int, int)) -> bool {
    &&& r.0 >= 0
    &&& r.1 >= 0
    &&& 3 * r.0 + 2 * r.1 <= sum_range(c, i, 9)
    &&& (3 * r.0 == sum_range(c, i, 9) ==> suit_melds(c, i, r.0))
}

/// The suit search finds a sound split.
pub proof fn lemma_suit_best_sound(c: Seq<int>, i: int)
    requires
        c.len() == 9,
        nonneg(c),
        0 <= i <= 9,
    ensures
        sound_split(c, i, suit_best(c, i)),
    decreases 9 - i, at(c, i),
{
    if i >= 9 {
    } else if c[i] <= 0 {
        lemma_suit_best_sound(c, i + 1);
        lemma_sum_front(c, i, 9);
    } else {
        let s = sum_range(c, i, 9);
        let c0 = take1(c, i);
        lemma_suit_best_sound(c0, i);
        lemma_sum_update(c, i, c[i] - 1, i, 9);
        let r0 = suit_best(c0, i);
        assert(sound_split(c, i, r0));
        let r1 = if c[i] >= 3 {
            let c1 = c.update(i, c[i] - 3);
            lemma_suit_best_sound(c1, i);
            lemma_sum_update(c, i, c[i] - 3, i, 9);
            let m = plus_meld(suit_best(c1, i));
            assert(sound_split(c, i, m));
            better(r0, m)
        } else {
            r0
        };
        assert(sound_split(c, i, r1));
        let r2 = if i <= 6 && c[i + 1] > 0 && c[i + 2] > 0 {
            let c2 = take_run(c, i);
            lemma_suit_best_sound(c2, i);
            lemma_sum_update(c, i, c[i] - 1, i, 9);
            lemma_sum_update(take1(c, i), i + 1, c[i + 1] - 1, i, 9);
            lemma_sum_update(take1(take1(c, i), i + 1), i + 2, c[i + 2] - 1, i, 9);
            let m = plus_meld(suit_best(c2, i));
            assert(sound_split(c, i, m));
            better(r1, m)
        } else {
            r1
        };
        assert(sound_split(c, i, r2));
        let r3 = if c[i] >= 2 {
            let c3 = c.update(i, c[i] - 2);
            lemma_suit_best_sound(c3, i);
            lemma_sum_update(c, i, c[i] - 2, i, 9);
            better(r2, plus_partial(suit_best(c3, i)))
        } else {
            r2
        };
        assert(sound_split(c, i, r3));
        let r4 = if i <= 7 && c[i + 1] > 0 {
            let c4 = take1(take1(c, i), i + 1);
            lemma_suit_best_sound(c4, i);
            lemma_sum_update(take1(c, i), i + 1, c[i + 1] - 1, i, 9);
            better(r3, plus_partial(suit_best(c4, i)))
        } else {
            r3
        };
        assert(sound_split(c, i, r4));
        if i <= 6 && c[i + 2] > 0 {
            let c5 = take1(take1(c, i), i + 2);
            lemma_suit_best_sound(c5, i);
            lemma_sum_update(take1(c, i), i + 2, c[i + 2] - 1, i, 9);
        }
    }
}

/// Every exact meld split is matched in worth by the suit search.
pub proof fn lemma_suit_best_complete(c: Seq<int>, i: int, k: int)
    requires
        c.len() == 9,
        0 <= i <= 9,
        suit_melds(c, i, k),
    ensures
        worth(suit_best(c, i)) >= 2 * k,
    decreases 9 - i, at(c, i),
{
    if i >= 9 {
    } else if c[i] <= 0 {
        lemma_suit_best_complete(c, i + 1, k);
    } else {
        if c[i] >= 3 && suit_melds(c.update(i, c[i] - 3), i, k - 1) {
            lemma_suit_best_complete(c.update(i, c[i] - 3), i, k - 1);
        } else {
            lemma_suit_best_complete(take_run(c, i), i, k - 1);
        }
    }
}


fn pick_better(a: (i32, i32), b: (i32, i32)) -> (r: (i32, i32))
    requires
        0 <= a.0 <= 10000,
        0 <= a.1 <= 10000,
        0 <= b.0 <= 10000,
        0 <= b.1 <= 10000,
    ensures
        (r.0 as int, r.1 as int) == better((a.0 as int, a.1 as int), (b.0 as int, b.1 as int)),
{
    let wa = 2 * a.0 + a.1;
    let wb = 2 * b.0 + b.1;
    if wb > wa || (wb == wa && b.0 > a.0) {
        b
    } else {
        a
    }
}

proof fn lemma_suit_bound(c: Seq<u8>, i: int)
    requires
        c.len() == 9,
        0 <= i <= 9,
    ensures
        0 <= suit_best(as_ints(c), i).0 <= 1000,
        0 <= suit_best(as_ints(c), i).1 <= 2000,
{
    let s = as_ints(c);
    lemma_suit_best_sound(s, i);
    lemma_sum_bounded(s, i, 9);
}

proof fn lemma_sum_bounded(c: Seq<int>, lo: int, hi: int)
    requires
        0 <= lo,
        hi <= c.len(),
        forall|j: int| 0 <= j < c.len() ==> c[j] <= 255,
    ensures
        sum_range(c, lo, hi) <= 255 * (if hi > lo { hi - lo } else { 0 }),
    decreases hi - lo,
{
    if hi > lo {
        lemma_sum_bounded(c, lo, hi - 1);
    }
}

/// The suit search, on the nine counts of one suit.
#[verifier::rlimit(50)]
fn suit_search(c: &mut Vec<u8>, i: usize) -> (r: (i32, i32))
    requires
        old(c)@.len() == 9,
        i <= 9,
    ensures
        final(c)@ == old(c)@,
        (r.0 as int, r.1 as int) == suit_best(as_ints(old(c)@), i as int),
        0 <= r.0 <= 1000,
        0 <= r.1 <= 2000,
    decreases 9 - i, at(as_ints(old(c)@), i as int),
{
    let ghost s = as_ints(c@);
    let ghost orig = c@;
    proof {
        lemma_suit_bound(c@, i as int);
    }
    if i >= 9 {
        return (0, 0);
    }
    let ci = c[i];
    if ci == 0 {
        return suit_search(c, i + 1);
    }
    c.set(i, ci - 1);
    proof {
        assert(as_ints(c@) =~= take1(s, i as int));
    }
    let r0 = suit_search(c, i);
    c.set(i, ci);
    proof {
        assert(c@ =~= orig);
    }
    let mut best = r0;
    if ci >= 3 {
        c.set(i, ci - 3);
        proof {
            assert(as_ints(c@) =~= s.update(i as int, s[i as int] - 3));
            lemma_suit_bound(c@, i as int);
        }
        let r = suit_search(c, i);
        c.set(i, ci);
        proof {
            assert(c@ =~= orig);
        }
        best = pick_better(best, (r.0 + 1, r.1));
    }
    if i <= 6 && c[i + 1] > 0 && c[i + 2] > 0 {
        let c1 = c[i + 1];
        let c2 = c[i + 2];
        c.set(i, ci - 1);
        c.set(i + 1, c1 - 1);
        c.set(i + 2, c2 - 1);
        proof {
            assert(as_ints(c@) =~= take_run(s, i as int));
            lemma_suit_bound(c@, i as int);
        }
        let r = suit_search(c, i);
        c.set(i, ci);
        c.set(i + 1, c1);
        c.set(i + 2, c2);
        proof {
            assert(c@ =~= orig);
        }
        best = pick_better(best, (r.0 + 1, r.1));
    }
    if ci >= 2 {
        c.set(i, ci - 2);
        proof {
            assert(as_ints(c@) =~= s.update(i as int, s[i as int] - 2));
            lemma_suit_bound(c@, i as int);
        }
        let r = suit_search(c, i);
        c.set(i, ci);
        proof {
            assert(c@ =~= orig);
        }
        best = pick_better(best, (r.0, r.1 + 1));
    }
    if i <= 7 && c[i + 1] > 0 {
        let c1 = c[i + 1];
        c.set(i, ci - 1);
        c.set(i + 1, c1 - 1);
        proof {
            assert(as_ints(c@) =~= take1(take1(s, i as int), i + 1));
            lemma_suit_bound(c@, i as int);
        }
        let r = suit_search(c, i);
        c.set(i, ci);
        c.set(i + 1, c1);
        proof {
            assert(c@ =~= orig);
        }
        best = pick_better(best, (r.0, r.1 + 1));
    }
    if i <= 6 && c[i + 2] > 0 {
        let c2 = c[i + 2];
        c.set(i, ci - 1);
        c.set(i + 2, c2 - 1);
        proof {
            assert(as_ints(c@) =~= take1(take1(s, i as int), i + 2));
            lemma_suit_bound(c@, i as int);
        }
        let r = suit_search(c, i);
        c.set(i, ci);
        c.set(i + 2, c2);
        proof {
            assert(c@ =~= orig);
        }
        best = pick_better(best, (r.0, r.1 + 1));
    }
    best
}


/// The nine counts of suit `s` (0, 1, 2).
pub open spec fn suit_of(c: Seq<int>, s: int) -> Seq<int> {
    c.subrange(9 * s, 9 * s + 9)
}

/// Number of positions in `[lo, hi)` whose count is at least `n`.
pub open spec fn num_at_least(c: Seq<int>, lo: int, hi: int, n: int) -> int
    decreases hi - lo,
{
    if hi <= lo {
        0
    } else {
        num_at_least(c, lo, hi - 1, n) + if c[hi - 1] >= n { 1int } else { 0int }
    }
}

/// Number of positions in `[lo, hi)` whose count is exactly `n`.
pub open spec fn num_exactly(c: Seq<int>, lo: int, hi: int, n: int) -> int
    decreases hi - lo,
{
    if hi <= lo {
        0
    } else {
        num_exactly(c, lo, hi - 1, n) + if c[hi - 1] == n { 1int } else { 0int }
    }
}

/// Melds and partial sets of a whole hand: the best split of each suit, and
/// for each honor a meld when it has three or more, a partial set when two.
pub open spec fn parts(c: Seq<int>) -> (int, int) {
    let a = suit_best(suit_of(c, 0), 0);
    let b = suit_best(suit_of(c, 1), 0);
    let d = suit_best(suit_of(c, 2), 0);
    (a.0 + b.0 + d.0 + num_at_least(c, 27, 34, 3), a.1 + b.1 + d.1 + num_exactly(c, 27, 34, 2))
}

/// Shanten of melds and partial sets, partial sets beyond four groups left out.
pub open spec fn capped_shanten(p: (int, int)) -> int {
    if p.0 + p.1 > 4 {
        8 - 2 * p.0 - (4 - p.0)
    } else {
        8 - 2 * p.0 - p.1
    }
}

/// Counts with a pair taken at `k`.
pub open spec fn remove_pair(c: Seq<int>, k: int) -> Seq<int> {
    c.update(k, c[k] - 2)
}

/// Least shanten with no head set aside, or with a pair of a kind below `k`
/// set aside as the head.
pub open spec fn headed_min(c: Seq<int>, k: int) -> int
    decreases k,
{
    if k <= 0 {
        capped_shanten(parts(c))
    } else {
        let p = headed_min(c, k - 1);
        if c[k - 1] >= 2 {
            let h = capped_shanten(parts(remove_pair(c, k - 1))) - 1;
            if h < p { h } else { p }
        } else {
            p
        }
    }
}

/// Shanten of the standard shape (four melds and a head).
pub open spec fn normal_shanten(c: Seq<int>) -> int {
    headed_min(c, 34)
}

/// Shanten of seven pairs.
pub open spec fn chitoitsu_shanten(c: Seq<int>) -> int {
    let pairs = num_at_least(c, 0, 34, 2);
    let kinds = num_at_least(c, 0, 34, 1);
    6 - pairs + if kinds < 7 { 7 - kinds } else { 0 }
}

/// Number of terminal and honor kinds below `hi` that are held.
pub open spec fn num_yaochu(c: Seq<int>, hi: int) -> int
    decreases hi,
{
    if hi <= 0 {
        0
    } else {
        num_yaochu(c, hi - 1) + if yaochu_idx(hi - 1) && c[hi - 1] >= 1 { 1int } else { 0int }
    }
}

/// Some terminal or honor kind is held twice or more.
pub open spec fn yaochu_pair(c: Seq<int>) -> bool {
    exists|j: int| 0 <= j < 34 && yaochu_idx(j) && #[trigger] c[j] >= 2
}

/// Shanten of thirteen orphans.
pub open spec fn kokushi_shanten(c: Seq<int>) -> int {
    13 - num_yaochu(c, 34) - if yaochu_pair(c) { 1int } else { 0int }
}

/// Least of the three shapes.
pub open spec fn shanten(c: Seq<int>) -> int {
    let a = normal_shanten(c);
    let b = chitoitsu_shanten(c);
    let d = kokushi_shanten(c);
    if a <= b && a <= d {
        a
    } else if b <= d {
        b
    } else {
        d
    }
}

/// Counts of a hand: 34 of them, each a byte.
pub open spec fn counts_wf(c: Seq<u8>) -> bool {
    c.len() == 34
}

fn suit_parts(c: &Vec<u8>, s: usize) -> (r: (i32, i32))
    requires
        counts_wf(c@),
        s < 3,
    ensures
        (r.0 as int, r.1 as int) == suit_best(suit_of(as_ints(c@), s as int), 0),
        0 <= r.0 <= 1000,
        0 <= r.1 <= 2000,
{
    let mut v: Vec<u8> = Vec::new();
    let mut j: usize = 0;
    while j < 9
        invariant
            j <= 9,
            s < 3,
            counts_wf(c@),
            v@.len() == j,
            forall|x: int| 0 <= x < j ==> v@[x] == c@[9 * s + x],
        decreases 9 - j,
    {
        v.push(c[9 * s + j]);
        j = j + 1;
    }
    proof {
        assert(as_ints(v@) =~= suit_of(as_ints(c@), s as int));
    }
    suit_search(&mut v, 0)
}

fn parts_shanten(c: &Vec<u8>) -> (r: i32)
    requires
        counts_wf(c@),
    ensures
        r as int == capped_shanten(parts(as_ints(c@))),
        -4000 <= r <= 8,
{
    let a = suit_parts(c, 0);
    let b = suit_parts(c, 1);
    let d = suit_parts(c, 2);
    let mut melds: i32 = a.0 + b.0 + d.0;
    let mut partials: i32 = a.1 + b.1 + d.1;
    let ghost m0 = melds as int;
    let ghost p0 = partials as int;
    let mut k: usize = 27;
    while k < NUM_KINDS
        invariant
            27 <= k <= 34,
            counts_wf(c@),
            0 <= m0 <= 3000,
            0 <= p0 <= 6000,
            melds as int == m0 + num_at_least(as_ints(c@), 27, k as int, 3),
            partials as int == p0 + num_exactly(as_ints(c@), 27, k as int, 2),
            0 <= num_at_least(as_ints(c@), 27, k as int, 3) <= k - 27,
            0 <= num_exactly(as_ints(c@), 27, k as int, 2) <= k - 27,
        decreases 34 - k,
    {
        let v = c[k];
        if v == 2 {
            partials = partials + 1;
        } else if v > 2 {
            melds = melds + 1;
        }
        k = k + 1;
    }
    if melds + partials > 4 {
        partials = 4 - melds;
    }
    8 - 2 * melds - partials
}

fn normal_shanten_counts(c: &mut Vec<u8>) -> (r: i32)
    requires
        counts_wf(old(c)@),
    ensures
        final(c)@ == old(c)@,
        r as int == normal_shanten(as_ints(old(c)@)),
{
    let ghost orig = c@;
    let ghost s = as_ints(c@);
    let mut best = parts_shanten(c);
    let mut k: usize = 0;
    while k < NUM_KINDS
        invariant
            k <= 34,
            c@ == orig,
            s == as_ints(orig),
            counts_wf(orig),
            best as int == headed_min(s, k as int),
            -10000 <= best <= 8,
        decreases 34 - k,
    {
        let v = c[k];
        if v >= 2 {
            c.set(k, v - 2);
            proof {
                assert(as_ints(c@) =~= remove_pair(s, k as int));
            }
            let h = parts_shanten(c);
            c.set(k, v);
            proof {
                assert(c@ =~= orig);
            }
            if h - 1 < best {
                best = h - 1;
            }
        }
        k = k + 1;
    }
    best
}


pub(crate) fn chitoitsu_shanten_counts(c: &Vec<u8>) -> (r: i32)
    requires
        counts_wf(c@),
    ensures
        r as int == chitoitsu_shanten(as_ints(c@)),
{
    let mut pairs: i32 = 0;
    let mut kinds: i32 = 0;
    let mut k: usize = 0;
    while k < NUM_KINDS
        invariant
            k <= 34,
            counts_wf(c@),
            pairs as int == num_at_least(as_ints(c@), 0, k as int, 2),
            kinds as int == num_at_least(as_ints(c@), 0, k as int, 1),
            0 <= pairs <= k,
            0 <= kinds <= k,
        decreases 34 - k,
    {
        if c[k] >= 2 {
            pairs = pairs + 1;
        }
        if c[k] >= 1 {
            kinds = kinds + 1;
        }
        k = k + 1;
    }
    let mut r = 6 - pairs;
    if kinds < 7 {
        r = r + 7 - kinds;
    }
    r
}

pub(crate) fn kokushi_shanten_counts(c: &Vec<u8>) -> (r: i32)
    requires
        counts_wf(c@),
    ensures
        r as int == kokushi_shanten(as_ints(c@)),
{
    let ghost s = as_ints(c@);
    let mut kinds: i32 = 0;
    let mut pair = false;
    let mut k: usize = 0;
    while k < NUM_KINDS
        invariant
            k <= 34,
            counts_wf(c@),
            s == as_ints(c@),
            kinds as int == num_yaochu(s, k as int),
            0 <= kinds <= k,
            pair <==> exists|j: int| 0 <= j < k && yaochu_idx(j) && #[trigger] s[j] >= 2,
        decreases 34 - k,
    {
        if yaochu_at(k) {
            if c[k] >= 1 {
                kinds = kinds + 1;
            }
            if c[k] >= 2 {
                pair = true;
            }
        }
        proof {
            if !pair {
                assert(!(yaochu_idx(k as int) && s[k as int] >= 2));
            }
        }
        k = k + 1;
    }
    let head: i32 = if pair { 1 } else { 0 };
    13 - kinds - head
}

pub(crate) fn shanten_counts(c: &mut Vec<u8>) -> (r: i32)
    requires
        counts_wf(old(c)@),
    ensures
        final(c)@ == old(c)@,
        r as int == shanten(as_ints(old(c)@)),
{
    let a = normal_shanten_counts(c);
    let b = chitoitsu_shanten_counts(c);
    let d = kokushi_shanten_counts(c);
    if a <= b && a <= d {
        a
    } else if b <= d {
        b
    } else {
        d
    }
}

/// Shanten of the standard shape (four melds and a head): -1 for a winning
/// hand, 0 for one tile away.
pub fn calculate_normal_shanten(tiles: &[TileId]) -> (r: i32)
    requires
        tiles@.len() <= MAX_TILES,
    ensures
        r as int == normal_shanten(counts_of(tiles@)),
{
    let mut c = calculate_tile_counts(tiles);
    normal_shanten_counts(&mut c)
}

/// Shanten of seven pairs.
pub fn calculate_chitoitsu_shanten(tiles: &[TileId]) -> (r: i32)
    requires
        tiles@.len() <= MAX_TILES,
    ensures
        r as int == chitoitsu_shanten(counts_of(tiles@)),
{
    let c = calculate_tile_counts(tiles);
    chitoitsu_shanten_counts(&c)
}

/// Shanten of thirteen orphans.
pub fn calculate_kokushimusou_shanten(tiles: &[TileId]) -> (r: i32)
    requires
        tiles@.len() <= MAX_TILES,
    ensures
        r as int == kokushi_shanten(counts_of(tiles@)),
{
    let c = calculate_tile_counts(tiles);
    kokushi_shanten_counts(&c)
}

/// Least shanten over the standard shape, seven pairs and thirteen orphans.
pub fn calculate_shanten(tiles: &[TileId]) -> (r: i32)
    requires
        tiles@.len() <= MAX_TILES,
    ensures
        r as int == shanten(counts_of(tiles@)),
{
    let mut c = calculate_tile_counts(tiles);
    shanten_counts(&mut c)
}


/// Error of effective-tile enumeration.
#[derive(PartialEq, Eq, Structural, Clone, Copy, Debug)]
pub enum ShantenError {
    /// The hand is not one draw short of a complete hand (1, 4, 7, 10 or 13 tiles).
    InvalidTileCount,
}

/// Which shanten effective tiles are counted against.
#[derive(PartialEq, Eq, Structural, Clone, Copy, Debug)]
pub enum Shape {
    /// Four melds and a head.
    Normal,
    /// Seven pairs.
    Chitoitsu,
    /// Thirteen orphans.
    Kokushimusou,
    /// The least of the three.
    All,
}

/// Shanten of `c` for a shape.
pub open spec fn shape_shanten(v: Shape, c: Seq<int>) -> int {
    match v {
        Shape::Normal => normal_shanten(c),
        Shape::Chitoitsu => chitoitsu_shanten(c),
        Shape::Kokushimusou => kokushi_shanten(c),
        Shape::All => shanten(c),
    }
}

/// A hand one draw short of complete: 1, 4, 7, 10 or 13 tiles.
pub open spec fn valid_draw_size(n: int) -> bool {
    n % 3 == 1 && 1 <= n <= 13
}

/// Kinds worth trying for the standard shape: those held, and those of a suit
/// within two ranks of a held tile of that suit.
pub open spec fn normal_candidate(c: Seq<int>, k: int) -> bool {
    c[k] > 0 || (suited_idx(k) && exists|j: int|
        suited_idx(j) && j / 9 == k / 9 && -2 <= j - k <= 2 && #[trigger] c[j] > 0)
}

/// Kinds worth trying for a shape.
pub open spec fn candidate(v: Shape, c: Seq<int>, k: int) -> bool {
    match v {
        Shape::Normal => normal_candidate(c, k),
        Shape::Chitoitsu => c[k] > 0,
        Shape::Kokushimusou => yaochu_idx(k),
        Shape::All => normal_candidate(c, k) || c[k] > 0 || yaochu_idx(k),
    }
}

/// Drawing the kind at `k` lowers the shanten of the shape.
pub open spec fn improves(v: Shape, c: Seq<int>, k: int) -> bool {
    shape_shanten(v, c.update(k, c[k] + 1)) < shape_shanten(v, c)
}

/// Effective kinds below `hi`, in ascending order.
pub open spec fn effective_upto(v: Shape, c: Seq<int>, hi: int) -> Seq<TileId>
    decreases hi,
{
    if hi <= 0 {
        seq![]
    } else {
        effective_upto(v, c, hi - 1) + if candidate(v, c, hi - 1) && improves(v, c, hi - 1) {
            seq![kind_at(hi - 1)]
        } else {
            seq![]
        }
    }
}

/// Effective kinds of a shape: candidates whose draw lowers its shanten.
pub open spec fn effective_tiles(v: Shape, c: Seq<int>) -> Seq<TileId> {
    effective_upto(v, c, 34)
}

fn shape_shanten_counts(v: Shape, c: &mut Vec<u8>) -> (r: i32)
    requires
        counts_wf(old(c)@),
    ensures
        final(c)@ == old(c)@,
        r as int == shape_shanten(v, as_ints(old(c)@)),
{
    match v {
        Shape::Normal => normal_shanten_counts(c),
        Shape::Chitoitsu => chitoitsu_shanten_counts(c),
        Shape::Kokushimusou => kokushi_shanten_counts(c),
        Shape::All => shanten_counts(c),
    }
}

fn draw_size_ok(n: usize) -> (r: bool)
    ensures
        r == valid_draw_size(n as int),
{
    n % 3 == 1 && 1 <= n && n <= 13
}

fn normal_candidate_at(c: &Vec<u8>, k: usize) -> (r: bool)
    requires
        counts_wf(c@),
        k < 34,
    ensures
        r == normal_candidate(as_ints(c@), k as int),
{
    let ghost s = as_ints(c@);
    if c[k] > 0 {
        return true;
    }
    if k >= 27 {
        return false;
    }
    let lo: usize = if k % 9 >= 2 { k - 2 } else { k - k % 9 };
    let hi: usize = if k % 9 <= 6 { k + 2 } else { k - k % 9 + 8 };
    let mut j: usize = lo;
    while j <= hi
        invariant
            k < 27,
            lo <= j <= hi + 1,
            lo == (if k % 9 >= 2 { k - 2 } else { k - k % 9 }),
            hi == (if k % 9 <= 6 { k + 2 } else { k - k % 9 + 8 }),
            counts_wf(c@),
            s == as_ints(c@),
            forall|x: int| lo <= x < j ==> s[x] <= 0,
        decreases hi + 1 - j,
    {
        if c[j] > 0 {
            assert(suited_idx(j as int) && j as int / 9 == k as int / 9);
            assert(s[j as int] > 0);
            assert(-2 <= j as int - k as int <= 2);
            return true;
        }
        j = j + 1;
    }
    assert forall|x: int|
        suited_idx(x) && x / 9 == k / 9 && -2 <= x - k <= 2 implies !(#[trigger] s[x] > 0) by {
        assert(lo <= x <= hi);
    }
    false
}

fn candidate_mask(v: Shape, c: &Vec<u8>) -> (r: Vec<bool>)
    requires
        counts_wf(c@),
    ensures
        r@.len() == 34,
        forall|k: int| 0 <= k < 34 ==> r@[k] == candidate(v, as_ints(c@), k),
{
    let mut r: Vec<bool> = Vec::new();
    let mut k: usize = 0;
    while k < NUM_KINDS
        invariant
            k <= 34,
            counts_wf(c@),
            r@.len() == k,
            forall|x: int| 0 <= x < k ==> r@[x] == candidate(v, as_ints(c@), x),
        decreases 34 - k,
    {
        let b = match v {
            Shape::Normal => normal_candidate_at(c, k),
            Shape::Chitoitsu => c[k] > 0,
            Shape::Kokushimusou => yaochu_at(k),
            Shape::All => normal_candidate_at(c, k) || c[k] > 0 || yaochu_at(k),
        };
        r.push(b);
        k = k + 1;
    }
    r
}

/// Candidate kinds for the standard shape, after the size check.
fn listup_normal_candidate_effective_tiles(tiles: &[TileId]) -> (r: Result<
    (Vec<u8>, Vec<bool>),
    ShantenError,
>)
    ensures
        r is Err <==> !valid_draw_size(tiles@.len() as int),
        r is Ok ==> as_ints(r->Ok_0.0@) == counts_of(tiles@) && r->Ok_0.0@.len() == 34
            && r->Ok_0.1@.len() == 34
            && forall|k: int| 0 <= k < 34 ==> r->Ok_0.1@[k] == candidate(Shape::Normal, counts_of(tiles@), k),
{
    if !draw_size_ok(tiles.len()) {
        return Err(ShantenError::InvalidTileCount);
    }
    let c = calculate_tile_counts(tiles);
    let m = candidate_mask(Shape::Normal, &c);
    Ok((c, m))
}

/// Candidate kinds for seven pairs, after the size check.
fn listup_chitoitsu_candidate_effective_tiles(tiles: &[TileId]) -> (r: Result<
    (Vec<u8>, Vec<bool>),
    ShantenError,
>)
    ensures
        r is Err <==> !valid_draw_size(tiles@.len() as int),
        r is Ok ==> as_ints(r->Ok_0.0@) == counts_of(tiles@) && r->Ok_0.0@.len() == 34
            && r->Ok_0.1@.len() == 34
            && forall|k: int| 0 <= k < 34 ==> r->Ok_0.1@[k] == candidate(Shape::Chitoitsu, counts_of(tiles@), k),
{
    if !draw_size_ok(tiles.len()) {
        return Err(ShantenError::InvalidTileCount);
    }
    let c = calculate_tile_counts(tiles);
    let m = candidate_mask(Shape::Chitoitsu, &c);
    Ok((c, m))
}

/// Candidate kinds for thirteen orphans, after the size check.
fn listup_kokushimusou_candidate_effective_tiles(tiles: &[TileId]) -> (r: Result<
    (Vec<u8>, Vec<bool>),
    ShantenError,
>)
    ensures
        r is Err <==> !valid_draw_size(tiles@.len() as int),
        r is Ok ==> as_ints(r->Ok_0.0@) == counts_of(tiles@) && r->Ok_0.0@.len() == 34
            && r->Ok_0.1@.len() == 34
            && forall|k: int| 0 <= k < 34 ==> r->Ok_0.1@[k] == candidate(Shape::Kokushimusou, counts_of(tiles@), k),
{
    if !draw_size_ok(tiles.len()) {
        return Err(ShantenError::InvalidTileCount);
    }
    let c = calculate_tile_counts(tiles);
    let m = candidate_mask(Shape::Kokushimusou, &c);
    Ok((c, m))
}

/// Tests each candidate kind by drawing it, in ascending order.
fn listup_effective_tiles_common(c: &mut Vec<u8>, mask: &Vec<bool>, v: Shape) -> (r: Vec<TileId>)
    requires
        counts_wf(old(c)@),
        mask@.len() == 34,
        forall|k: int| 0 <= k < 34 ==> mask@[k] == candidate(v, as_ints(old(c)@), k),
        forall|k: int| 0 <= k < 34 ==> old(c)@[k] < 255,
    ensures
        final(c)@ == old(c)@,
        r@ == effective_tiles(v, as_ints(old(c)@)),
{
    let ghost orig = c@;
    let ghost s = as_ints(c@);
    let current = shape_shanten_counts(v, c);
    let mut r: Vec<TileId> = Vec::new();
    let mut k: usize = 0;
    while k < NUM_KINDS
        invariant
            k <= 34,
            c@ == orig,
            s == as_ints(orig),
            counts_wf(orig),
            mask@.len() == 34,
            forall|x: int| 0 <= x < 34 ==> mask@[x] == candidate(v, s, x),
            forall|x: int| 0 <= x < 34 ==> orig[x] < 255,
            current as int == shape_shanten(v, s),
            r@ == effective_upto(v, s, k as int),
        decreases 34 - k,
    {
        if mask[k] {
            let x = c[k];
            c.set(k, x + 1);
            proof {
                assert(as_ints(c@) =~= s.update(k as int, s[k as int] + 1));
            }
            let after = shape_shanten_counts(v, c);
            c.set(k, x);
            proof {
                assert(c@ =~= orig);
            }
            if after < current {
                r.push(TileId::from_index(k));
            }
        }
        proof {
            assert(r@ =~= effective_upto(v, s, k as int + 1));
        }
        k = k + 1;
    }
    r
}

proof fn lemma_small_counts(tiles: Seq<TileId>, c: Seq<u8>)
    requires
        tiles.len() <= 13,
        c.len() == 34,
        as_ints(c) == counts_of(tiles),
    ensures
        forall|k: int| 0 <= k < 34 ==> c[k] < 255,
{
    assert forall|k: int| 0 <= k < 34 implies c[k] < 255 by {
        crate::types::lemma_count_idx_bounds(tiles, k);
        assert(as_ints(c)[k] == counts_of(tiles)[k]);
        assert(as_ints(c)[k] == c[k] as int);
    }
}

/// Effective tiles of the standard shape: the kinds whose draw lowers its
/// shanten, ascending.
pub fn listup_normal_effective_tiles(tiles: &[TileId]) -> (r: Result<Vec<TileId>, ShantenError>)
    ensures
        r is Err <==> !valid_draw_size(tiles@.len() as int),
        r is Ok ==> r->Ok_0@ == effective_tiles(Shape::Normal, counts_of(tiles@)),
{
    let (mut c, m) = listup_normal_candidate_effective_tiles(tiles)?;
    proof {
        lemma_small_counts(tiles@, c@);
    }
    Ok(listup_effective_tiles_common(&mut c, &m, Shape::Normal))
}

/// Effective tiles of seven pairs, ascending.
pub fn listup_chitoitsu_effective_tiles(tiles: &[TileId]) -> (r: Result<Vec<TileId>, ShantenError>)
    ensures
        r is Err <==> !valid_draw_size(tiles@.len() as int),
        r is Ok ==> r->Ok_0@ == effective_tiles(Shape::Chitoitsu, counts_of(tiles@)),
{
    let (mut c, m) = listup_chitoitsu_candidate_effective_tiles(tiles)?;
    proof {
        lemma_small_counts(tiles@, c@);
    }
    Ok(listup_effective_tiles_common(&mut c, &m, Shape::Chitoitsu))
}

/// Effective tiles of thirteen orphans, ascending.
pub fn listup_kokushimusou_effective_tiles(tiles: &[TileId]) -> (r: Result<
    Vec<TileId>,
    ShantenError,
>)
    ensures
        r is Err <==> !valid_draw_size(tiles@.len() as int),
        r is Ok ==> r->Ok_0@ == effective_tiles(Shape::Kokushimusou, counts_of(tiles@)),
{
    let (mut c, m) = listup_kokushimusou_candidate_effective_tiles(tiles)?;
    proof {
        lemma_small_counts(tiles@, c@);
    }
    Ok(listup_effective_tiles_common(&mut c, &m, Shape::Kokushimusou))
}

/// Effective tiles against the least shanten of the three shapes, the
/// candidates of all three tried, ascending.
pub fn listup_effective_tiles(tiles: &[TileId]) -> (r: Result<Vec<TileId>, ShantenError>)
    ensures
        r is Err <==> !valid_draw_size(tiles@.len() as int),
        r is Ok ==> r->Ok_0@ == effective_tiles(Shape::All, counts_of(tiles@)),
{
    let (mut c, normal) = listup_normal_candidate_effective_tiles(tiles)?;
    let (_, chitoitsu) = listup_chitoitsu_candidate_effective_tiles(tiles)?;
    let (_, kokushi) = listup_kokushimusou_candidate_effective_tiles(tiles)?;
    let ghost s = as_ints(c@);
    let mut merged: Vec<bool> = Vec::new();
    let mut k: usize = 0;
    while k < NUM_KINDS
        invariant
            k <= 34,
            normal@.len() == 34,
            chitoitsu@.len() == 34,
            kokushi@.len() == 34,
            s == counts_of(tiles@),
            forall|x: int| 0 <= x < 34 ==> normal@[x] == candidate(Shape::Normal, s, x),
            forall|x: int| 0 <= x < 34 ==> chitoitsu@[x] == candidate(Shape::Chitoitsu, s, x),
            forall|x: int| 0 <= x < 34 ==> kokushi@[x] == candidate(Shape::Kokushimusou, s, x),
            merged@.len() == k,
            forall|x: int| 0 <= x < k ==> merged@[x] == candidate(Shape::All, s, x),
        decreases 34 - k,
    {
        merged.push(normal[k] || chitoitsu[k] || kokushi[k]);
        k = k + 1;
    }
    proof {
        lemma_small_counts(tiles@, c@);
    }
    Ok(listup_effective_tiles_common(&mut c, &merged, Shape::All))
}


/// Every honor count is 0 or 3.
pub open spec fn honors_in_triplets(c: Seq<int>) -> bool {
    forall|j: int| 27 <= j < 34 ==> #[trigger] c[j] == 0 || c[j] == 3
}

/// With a pair of the kind at `h` set aside, each suit splits exactly into
/// melds, every honor is a triplet or absent, and there are four melds in all.
pub open spec fn standard_complete_at(c: Seq<int>, h: int) -> bool {
    &&& 0 <= h < 34
    &&& c[h] >= 2
    &&& honors_in_triplets(remove_pair(c, h))
    &&& exists|k0: int, k1: int, k2: int|
        #[trigger] suit_melds(suit_of(remove_pair(c, h), 0), 0, k0) && #[trigger] suit_melds(suit_of(remove_pair(c, h), 1), 0, k1)
            && #[trigger] suit_melds(suit_of(remove_pair(c, h), 2), 0, k2)
            && k0 + k1 + k2 + num_at_least(remove_pair(c, h), 27, 34, 3) == 4
}

/// A head and four melds.
pub open spec fn standard_complete(c: Seq<int>) -> bool {
    exists|h: int| #[trigger] standard_complete_at(c, h)
}

/// Seven distinct pairs.
pub open spec fn seven_pairs_complete(c: Seq<int>) -> bool {
    &&& forall|k: int| 0 <= k < 34 ==> #[trigger] c[k] == 0 || c[k] == 2
    &&& num_exactly(c, 0, 34, 2) == 7
}

/// Every terminal and honor kind, one of them twice.
pub open spec fn thirteen_orphans_complete(c: Seq<int>) -> bool {
    &&& forall|k: int| 0 <= k < 34 && yaochu_idx(k) ==> #[trigger] c[k] >= 1
    &&& yaochu_pair(c)
}

proof fn lemma_sum_split(c: Seq<int>, lo: int, mid: int, hi: int)
    requires
        lo <= mid <= hi,
    ensures
        sum_range(c, lo, hi) == sum_range(c, lo, mid) + sum_range(c, mid, hi),
    decreases hi - mid,
{
    if hi > mid {
        lemma_sum_split(c, lo, mid, hi - 1);
    }
}

proof fn lemma_sum_shift(c: Seq<int>, a: int, n: int)
    requires
        0 <= a,
        0 <= n <= 9,
        a + 9 <= c.len(),
    ensures
        sum_range(c.subrange(a, a + 9), 0, n) == sum_range(c, a, a + n),
    decreases n,
{
    if n > 0 {
        lemma_sum_shift(c, a, n - 1);
    }
}

/// Honors as melds and partial sets use distinct tiles; using them all in
/// melds means every honor count is 0 or 3.
proof fn lemma_honor_parts(c: Seq<int>, lo: int, hi: int)
    requires
        nonneg(c),
        0 <= lo <= hi <= c.len(),
    ensures
        3 * num_at_least(c, lo, hi, 3) + 2 * num_exactly(c, lo, hi, 2) <= sum_range(c, lo, hi),
        num_at_least(c, lo, hi, 3) >= 0,
        num_exactly(c, lo, hi, 2) >= 0,
        (3 * num_at_least(c, lo, hi, 3) == sum_range(c, lo, hi) && num_exactly(c, lo, hi, 2) == 0)
            ==> forall|j: int| lo <= j < hi ==> #[trigger] c[j] == 0 || c[j] == 3,
        (forall|j: int| lo <= j < hi ==> #[trigger] c[j] == 0 || c[j] == 3) ==> 3 * num_at_least(c, lo, hi, 3)
            == sum_range(c, lo, hi) && num_exactly(c, lo, hi, 2) == 0,
    decreases hi - lo,
{
    if hi > lo {
        lemma_honor_parts(c, lo, hi - 1);
        let x = c[hi - 1];
        assert(x >= 0);
        if 3 * num_at_least(c, lo, hi, 3) == sum_range(c, lo, hi) && num_exactly(c, lo, hi, 2) == 0 {
            assert(x == 0 || x == 3 || x == 1 || x >= 4 || x == 2);
            assert forall|j: int| lo <= j < hi implies #[trigger] c[j] == 0 || c[j] == 3 by {
                if j < hi - 1 {
                }
            }
        }
        if forall|j: int| lo <= j < hi ==> #[trigger] c[j] == 0 || c[j] == 3 {
            assert(c[hi - 1] == 0 || c[hi - 1] == 3);
            assert forall|j: int| lo <= j < hi - 1 implies #[trigger] c[j] == 0 || c[j] == 3 by {
                assert(c[j] == 0 || c[j] == 3);
            }
        }
    }
}

/// Split of a hand's total into the three suits and the honors.
proof fn lemma_sum_parts(c: Seq<int>)
    requires
        c.len() == 34,
    ensures
        sum_range(c, 0, 34) == sum_range(suit_of(c, 0), 0, 9) + sum_range(suit_of(c, 1), 0, 9)
            + sum_range(suit_of(c, 2), 0, 9) + sum_range(c, 27, 34),
{
    lemma_sum_split(c, 0, 9, 34);
    lemma_sum_split(c, 9, 18, 34);
    lemma_sum_split(c, 18, 27, 34);
    lemma_sum_shift(c, 0, 9);
    lemma_sum_shift(c, 9, 9);
    lemma_sum_shift(c, 18, 9);
}

proof fn lemma_suit_nonneg(c: Seq<int>, s: int)
    requires
        c.len() == 34,
        nonneg(c),
        0 <= s < 3,
    ensures
        nonneg(suit_of(c, s)),
        suit_of(c, s).len() == 9,
{
    assert forall|j: int| 0 <= j < suit_of(c, s).len() implies suit_of(c, s)[j] >= 0 by {
        assert(suit_of(c, s)[j] == c[9 * s + j]);
    }
}

/// The melds and partial sets of a hand use distinct tiles.
proof fn lemma_parts_bound(c: Seq<int>)
    requires
        c.len() == 34,
        nonneg(c),
    ensures
        parts(c).0 >= 0,
        parts(c).1 >= 0,
        3 * parts(c).0 + 2 * parts(c).1 <= sum_range(c, 0, 34),
{
    lemma_suit_nonneg(c, 0);
    lemma_suit_nonneg(c, 1);
    lemma_suit_nonneg(c, 2);
    lemma_suit_best_sound(suit_of(c, 0), 0);
    lemma_suit_best_sound(suit_of(c, 1), 0);
    lemma_suit_best_sound(suit_of(c, 2), 0);
    lemma_honor_parts(c, 27, 34);
    lemma_sum_parts(c);
}

/// An exact meld split holds three tiles per meld.
proof fn lemma_suit_melds_sum(c: Seq<int>, i: int, k: int)
    requires
        c.len() == 9,
        nonneg(c),
        0 <= i <= 9,
        suit_melds(c, i, k),
    ensures
        sum_range(c, i, 9) == 3 * k,
        k >= 0,
    decreases 9 - i, at(c, i),
{
    if i >= 9 {
    } else if c[i] <= 0 {
        lemma_suit_melds_sum(c, i + 1, k);
        lemma_sum_front(c, i, 9);
    } else {
        if c[i] >= 3 && suit_melds(c.update(i, c[i] - 3), i, k - 1) {
            lemma_suit_melds_sum(c.update(i, c[i] - 3), i, k - 1);
            lemma_sum_update(c, i, c[i] - 3, i, 9);
        } else {
            let c1 = take1(c, i);
            let c2 = take1(c1, i + 1);
            lemma_suit_melds_sum(take_run(c, i), i, k - 1);
            lemma_sum_update(c, i, c[i] - 1, i, 9);
            lemma_sum_update(c1, i + 1, c1[i + 1] - 1, i, 9);
            lemma_sum_update(c2, i + 2, c2[i + 2] - 1, i, 9);
        }
    }
}

/// Twelve tiles give a shanten of at least 0 once a head is set aside, and
/// exactly 0 when they split into four melds.
proof fn lemma_headless_twelve(r: Seq<int>)
    requires
        r.len() == 34,
        nonneg(r),
        sum_range(r, 0, 34) == 12,
    ensures
        capped_shanten(parts(r)) >= 0,
        capped_shanten(parts(r)) == 0 <==> (honors_in_triplets(r) && exists|k0: int, k1: int, k2: int|
            #[trigger] suit_melds(suit_of(r, 0), 0, k0) && #[trigger] suit_melds(suit_of(r, 1), 0, k1)
                && #[trigger] suit_melds(suit_of(r, 2), 0, k2) && k0 + k1 + k2 + num_at_least(r, 27, 34, 3) == 4),
{
    lemma_parts_bound(r);
    lemma_suit_nonneg(r, 0);
    lemma_suit_nonneg(r, 1);
    lemma_suit_nonneg(r, 2);
    let a = suit_best(suit_of(r, 0), 0);
    let b = suit_best(suit_of(r, 1), 0);
    let d = suit_best(suit_of(r, 2), 0);
    lemma_suit_best_sound(suit_of(r, 0), 0);
    lemma_suit_best_sound(suit_of(r, 1), 0);
    lemma_suit_best_sound(suit_of(r, 2), 0);
    lemma_honor_parts(r, 27, 34);
    lemma_sum_parts(r);
    let p = parts(r);
    if capped_shanten(p) == 0 {
        assert(p.0 == 4 && p.1 == 0);
        assert(honors_in_triplets(r));
        assert(suit_melds(suit_of(r, 0), 0, a.0));
        assert(suit_melds(suit_of(r, 1), 0, b.0));
        assert(suit_melds(suit_of(r, 2), 0, d.0));
    }
    if honors_in_triplets(r) && exists|k0: int, k1: int, k2: int|
        #[trigger] suit_melds(suit_of(r, 0), 0, k0) && #[trigger] suit_melds(suit_of(r, 1), 0, k1)
            && #[trigger] suit_melds(suit_of(r, 2), 0, k2) && k0 + k1 + k2 + num_at_least(r, 27, 34, 3) == 4 {
        let (k0, k1, k2) = choose|k0: int, k1: int, k2: int|
            #[trigger] suit_melds(suit_of(r, 0), 0, k0) && #[trigger] suit_melds(suit_of(r, 1), 0, k1)
                && #[trigger] suit_melds(suit_of(r, 2), 0, k2) && k0 + k1 + k2 + num_at_least(r, 27, 34, 3) == 4;
        lemma_suit_best_complete(suit_of(r, 0), 0, k0);
        lemma_suit_best_complete(suit_of(r, 1), 0, k1);
        lemma_suit_best_complete(suit_of(r, 2), 0, k2);
        lemma_suit_melds_sum(suit_of(r, 0), 0, k0);
        lemma_suit_melds_sum(suit_of(r, 1), 0, k1);
        lemma_suit_melds_sum(suit_of(r, 2), 0, k2);
        assert(a.1 == 0 && a.0 == k0);
        assert(b.1 == 0 && b.0 == k1);
        assert(d.1 == 0 && d.0 == k2);
    }
}

/// Setting a pair aside takes two tiles and keeps counts non-negative.
proof fn lemma_remove_pair(c: Seq<int>, h: int)
    requires
        c.len() == 34,
        nonneg(c),
        0 <= h < 34,
        c[h] >= 2,
    ensures
        nonneg(remove_pair(c, h)),
        remove_pair(c, h).len() == 34,
        sum_range(remove_pair(c, h), 0, 34) == sum_range(c, 0, 34) - 2,
{
    lemma_sum_update(c, h, c[h] - 2, 0, 34);
}

/// With fourteen tiles the standard shanten is at least -1, and -1 exactly
/// when some head leaves four melds.
proof fn lemma_headed_min(c: Seq<int>, k: int)
    requires
        c.len() == 34,
        nonneg(c),
        sum_range(c, 0, 34) == 14,
        0 <= k <= 34,
    ensures
        headed_min(c, k) >= -1,
        headed_min(c, k) == -1 <==> exists|h: int| 0 <= h < k && #[trigger] standard_complete_at(c, h),
    decreases k,
{
    if k == 0 {
        lemma_parts_bound(c);
    } else {
        lemma_headed_min(c, k - 1);
        let h = k - 1;
        if c[h] >= 2 {
            lemma_remove_pair(c, h);
            lemma_headless_twelve(remove_pair(c, h));
        }
        if exists|h2: int| 0 <= h2 < k && #[trigger] standard_complete_at(c, h2) {
            let h2 = choose|h2: int| 0 <= h2 < k && #[trigger] standard_complete_at(c, h2);
            if h2 < k - 1 {
                assert(exists|h3: int| 0 <= h3 < k - 1 && #[trigger] standard_complete_at(c, h3));
            }
        }
        if headed_min(c, k) == -1 && headed_min(c, k - 1) != -1 {
            assert(standard_complete_at(c, h));
        }
    }
}

/// Kinds held and kinds held twice: each pair takes two tiles.
proof fn lemma_pair_counts(c: Seq<int>, hi: int)
    requires
        nonneg(c),
        0 <= hi <= c.len(),
    ensures
        num_at_least(c, 0, hi, 1) == num_exactly(c, 0, hi, 1) + num_at_least(c, 0, hi, 2),
        num_at_least(c, 0, hi, 2) + num_at_least(c, 0, hi, 1) <= sum_range(c, 0, hi),
        num_at_least(c, 0, hi, 2) >= 0,
        num_exactly(c, 0, hi, 1) >= 0,
        num_at_least(c, 0, hi, 2) + num_at_least(c, 0, hi, 1) == sum_range(c, 0, hi) ==> forall|j: int|
            0 <= j < hi ==> #[trigger] c[j] <= 2,
        (forall|j: int| 0 <= j < hi ==> #[trigger] c[j] <= 2) ==> num_at_least(c, 0, hi, 2) == num_exactly(c, 0, hi, 2),
        (forall|j: int| 0 <= j < hi ==> #[trigger] c[j] == 0 || c[j] == 2) ==> num_at_least(c, 0, hi, 1)
            == num_exactly(c, 0, hi, 2) && num_exactly(c, 0, hi, 1) == 0,
    decreases hi,
{
    if hi > 0 {
        lemma_pair_counts(c, hi - 1);
        assert(c[hi - 1] >= 0);
        if num_at_least(c, 0, hi, 2) + num_at_least(c, 0, hi, 1) == sum_range(c, 0, hi) {
            assert forall|j: int| 0 <= j < hi implies #[trigger] c[j] <= 2 by {
                if j < hi - 1 {
                }
            }
        }
        if forall|j: int| 0 <= j < hi ==> #[trigger] c[j] <= 2 {
            assert(c[hi - 1] <= 2);
        }
        if forall|j: int| 0 <= j < hi ==> #[trigger] c[j] == 0 || c[j] == 2 {
            assert(c[hi - 1] == 0 || c[hi - 1] == 2);
        }
    }
}

/// With fourteen tiles the seven-pairs shanten is at least -1, and -1 exactly
/// for seven distinct pairs.
proof fn lemma_chitoitsu_complete(c: Seq<int>)
    requires
        c.len() == 34,
        nonneg(c),
        sum_range(c, 0, 34) == 14,
    ensures
        chitoitsu_shanten(c) >= -1,
        chitoitsu_shanten(c) == -1 <==> seven_pairs_complete(c),
{
    lemma_pair_counts(c, 34);
    let pairs = num_at_least(c, 0, 34, 2);
    let kinds = num_at_least(c, 0, 34, 1);
    if chitoitsu_shanten(c) == -1 {
        assert(kinds >= 7);
        assert(pairs == 7);
        assert(kinds == 7);
        assert forall|k: int| 0 <= k < 34 implies #[trigger] c[k] == 0 || c[k] == 2 by {
            assert(c[k] <= 2);
            if c[k] == 1 {
                lemma_exactly_one_positive(c, 34, k);
            }
        }
    }
}

/// A kind held exactly once is counted among the kinds held once.
proof fn lemma_exactly_one_positive(c: Seq<int>, hi: int, k: int)
    requires
        0 <= k < hi <= c.len(),
        c[k] == 1,
        nonneg(c),
    ensures
        num_exactly(c, 0, hi, 1) >= 1,
    decreases hi,
{
    if k < hi - 1 {
        lemma_exactly_one_positive(c, hi - 1, k);
    } else {
        lemma_pair_counts(c, hi - 1);
    }
}

/// Number of terminal and honor kinds below `hi`.
pub open spec fn yaochu_kinds(hi: int) -> int
    decreases hi,
{
    if hi <= 0 {
        0
    } else {
        yaochu_kinds(hi - 1) + if yaochu_idx(hi - 1) { 1int } else { 0int }
    }
}

proof fn lemma_num_yaochu(c: Seq<int>, hi: int)
    requires
        0 <= hi <= 34,
        c.len() == 34,
    ensures
        num_yaochu(c, hi) <= yaochu_kinds(hi),
        num_yaochu(c, hi) == yaochu_kinds(hi) <==> forall|k: int| 0 <= k < hi && yaochu_idx(k) ==> #[trigger] c[k] >= 1,
    decreases hi,
{
    if hi > 0 {
        lemma_num_yaochu(c, hi - 1);
        if num_yaochu(c, hi) == yaochu_kinds(hi) {
            assert forall|k: int| 0 <= k < hi && yaochu_idx(k) implies #[trigger] c[k] >= 1 by {
                if k < hi - 1 {
                }
            }
        }
        if forall|k: int| 0 <= k < hi && yaochu_idx(k) ==> #[trigger] c[k] >= 1 {
            if yaochu_idx(hi - 1) {
                assert(c[hi - 1] >= 1);
            }
        }
    }
}

/// The thirteen-orphans shanten is at least -1, and -1 exactly for every
/// terminal and honor with one of them twice.
proof fn lemma_kokushi_complete(c: Seq<int>)
    requires
        c.len() == 34,
    ensures
        kokushi_shanten(c) >= -1,
        kokushi_shanten(c) == -1 <==> thirteen_orphans_complete(c),
{
    lemma_num_yaochu(c, 34);
    assert(yaochu_kinds(34) == 13) by {
        reveal_with_fuel(yaochu_kinds, 35);
    }
}

proof fn lemma_fourteen(tiles: Seq<TileId>)
    requires
        tiles.len() == 14,
    ensures
        counts_of(tiles).len() == 34,
        nonneg(counts_of(tiles)),
        sum_range(counts_of(tiles), 0, 34) == 14,
{
    let c = counts_of(tiles);
    lemma_counts_sum(tiles);
    assert forall|j: int| 0 <= j < c.len() implies c[j] >= 0 by {
        lemma_count_idx_bounds(tiles, j);
    }
}

/// Fourteen tiles: the standard shanten is at least -1, and -1 exactly when
/// a head and four melds use them all.
pub proof fn lemma_normal_shanten_minus_one(tiles: Seq<TileId>)
    requires
        tiles.len() == 14,
    ensures
        normal_shanten(counts_of(tiles)) >= -1,
        normal_shanten(counts_of(tiles)) == -1 <==> standard_complete(counts_of(tiles)),
{
    let c = counts_of(tiles);
    lemma_fourteen(tiles);
    lemma_headed_min(c, 34);
    if standard_complete(c) {
        let h = choose|h: int| #[trigger] standard_complete_at(c, h);
        assert(0 <= h < 34 && standard_complete_at(c, h));
    }
}

/// Fourteen tiles: the seven-pairs shanten is at least -1, and -1 exactly for
/// seven distinct kinds held twice each.
pub proof fn lemma_chitoitsu_shanten_minus_one(tiles: Seq<TileId>)
    requires
        tiles.len() == 14,
    ensures
        chitoitsu_shanten(counts_of(tiles)) >= -1,
        chitoitsu_shanten(counts_of(tiles)) == -1 <==> seven_pairs_complete(counts_of(tiles)),
{
    lemma_fourteen(tiles);
    lemma_chitoitsu_complete(counts_of(tiles));
}

/// Number of terminal and honor kinds below `hi` held twice or more.
pub open spec fn num_yaochu_pairs(c: Seq<int>, hi: int) -> int
    decreases hi,
{
    if hi <= 0 {
        0
    } else {
        num_yaochu_pairs(c, hi - 1) + if yaochu_idx(hi - 1) && c[hi - 1] >= 2 { 1int } else { 0int }
    }
}

/// Number of other kinds below `hi` that are held.
pub open spec fn num_others_held(c: Seq<int>, hi: int) -> int
    decreases hi,
{
    if hi <= 0 {
        0
    } else {
        num_others_held(c, hi - 1) + if !yaochu_idx(hi - 1) && c[hi - 1] >= 1 { 1int } else { 0int }
    }
}

proof fn lemma_yaochu_tiles(c: Seq<int>, hi: int)
    requires
        nonneg(c),
        0 <= hi <= c.len(),
        hi <= 34,
    ensures
        sum_range(c, 0, hi) >= num_yaochu(c, hi) + num_yaochu_pairs(c, hi) + num_others_held(c, hi),
        num_yaochu_pairs(c, hi) >= 0,
        num_others_held(c, hi) >= 0,
        (exists|j: int| 0 <= j < hi && yaochu_idx(j) && #[trigger] c[j] >= 2) ==> num_yaochu_pairs(c, hi) >= 1,
        num_others_held(c, hi) == 0 ==> forall|j: int| 0 <= j < hi && !yaochu_idx(j) ==> #[trigger] c[j] == 0,
    decreases hi,
{
    if hi > 0 {
        lemma_yaochu_tiles(c, hi - 1);
        assert(c[hi - 1] >= 0);
        if exists|j: int| 0 <= j < hi && yaochu_idx(j) && #[trigger] c[j] >= 2 {
            let j = choose|j: int| 0 <= j < hi && yaochu_idx(j) && #[trigger] c[j] >= 2;
            if j < hi - 1 {
                assert(exists|j2: int| 0 <= j2 < hi - 1 && yaochu_idx(j2) && #[trigger] c[j2] >= 2);
            }
        }
    }
}

/// Fourteen tiles: the thirteen-orphans shanten is at least -1, and -1
/// exactly when every terminal and honor is held and one of them twice; such
/// a hand holds nothing else.
pub proof fn lemma_kokushi_shanten_minus_one(tiles: Seq<TileId>)
    requires
        tiles.len() == 14,
    ensures
        kokushi_shanten(counts_of(tiles)) >= -1,
        kokushi_shanten(counts_of(tiles)) == -1 <==> thirteen_orphans_complete(counts_of(tiles)),
        thirteen_orphans_complete(counts_of(tiles)) ==> forall|k: int|
            0 <= k < 34 && !yaochu_idx(k) ==> #[trigger] counts_of(tiles)[k] == 0,
{
    let c = counts_of(tiles);
    lemma_fourteen(tiles);
    lemma_kokushi_complete(c);
    if thirteen_orphans_complete(c) {
        lemma_num_yaochu(c, 34);
        assert(yaochu_kinds(34) == 13) by {
            reveal_with_fuel(yaochu_kinds, 35);
        }
        lemma_yaochu_tiles(c, 34);
    }
}

/// A hand of fourteen tiles has shanten at least -1, and -1 exactly when it is
/// a head and four melds, seven distinct pairs, or thirteen orphans.
pub proof fn lemma_shanten_minus_one(tiles: Seq<TileId>)
    requires
        tiles.len() == 14,
    ensures
        shanten(counts_of(tiles)) >= -1,
        shanten(counts_of(tiles)) == -1 <==> (standard_complete(counts_of(tiles))
            || seven_pairs_complete(counts_of(tiles)) || thirteen_orphans_complete(counts_of(tiles))),
{
    lemma_normal_shanten_minus_one(tiles);
    lemma_chitoitsu_shanten_minus_one(tiles);
    lemma_kokushi_shanten_minus_one(tiles);
}


/// Effective tiles depend on the tiles held, not on their order.
pub proof fn lemma_effective_tiles_order_free(v: Shape, a: Seq<TileId>, b: Seq<TileId>)
    requires
        a.to_multiset() == b.to_multiset(),
    ensures
        effective_tiles(v, counts_of(a)) == effective_tiles(v, counts_of(b)),
{
    crate::types::lemma_counts_of_permutation(a, b);
}


/// No tile within two ranks of position `p` of a suit's nine counts.
pub open spec fn lonely(c: Seq<int>, p: int) -> bool {
    forall|j: int| 0 <= j < 9 && -2 <= j - p <= 2 ==> #[trigger] c[j] == 0
}

/// A tile with no neighbour within two ranks changes no split of its suit.
proof fn lemma_suit_best_lonely(c: Seq<int>, p: int, i: int)
    requires
        c.len() == 9,
        nonneg(c),
        0 <= p < 9,
        lonely(c, p),
        0 <= i <= p,
    ensures
        suit_best(c.update(p, 1), i) == suit_best(c, i),
    decreases 9 - i, at(c, i),
{
    let d = c.update(p, 1);
    if i == p {
        assert(c[p] == 0);
        assert(take1(d, p) =~= c);
        if p + 1 < 9 {
            assert(c[p + 1] == 0);
        }
        if p + 2 < 9 {
            assert(c[p + 2] == 0);
        }
        assert(suit_best(d, i) == suit_best(take1(d, p), p));
        lemma_suit_best_skip(c, p);
    } else if c[i] <= 0 {
        lemma_suit_best_lonely(c, p, i + 1);
    } else {
        assert(i + 2 < p) by {
            if i + 2 >= p {
                assert(c[i] == 0);
            }
        }
        let c0 = take1(c, i);
        assert(take1(d, i) =~= c0.update(p, 1));
        lemma_suit_best_lonely(c0, p, i);
        if c[i] >= 3 {
            let c1 = c.update(i, c[i] - 3);
            assert(d.update(i, d[i] - 3) =~= c1.update(p, 1));
            lemma_suit_best_lonely(c1, p, i);
        }
        if i <= 6 && c[i + 1] > 0 && c[i + 2] > 0 {
            let c2 = take_run(c, i);
            assert(take_run(d, i) =~= c2.update(p, 1));
            lemma_suit_best_lonely(c2, p, i);
        }
        if c[i] >= 2 {
            let c3 = c.update(i, c[i] - 2);
            assert(d.update(i, d[i] - 2) =~= c3.update(p, 1));
            lemma_suit_best_lonely(c3, p, i);
        }
        if i <= 7 && c[i + 1] > 0 {
            let c4 = take1(take1(c, i), i + 1);
            assert(take1(take1(d, i), i + 1) =~= c4.update(p, 1));
            lemma_suit_best_lonely(c4, p, i);
        }
        if i <= 6 && c[i + 2] > 0 {
            let c5 = take1(take1(c, i), i + 2);
            assert(take1(take1(d, i), i + 2) =~= c5.update(p, 1));
            lemma_suit_best_lonely(c5, p, i);
        }
    }
}

proof fn lemma_suit_best_skip(c: Seq<int>, p: int)
    requires
        c.len() == 9,
        0 <= p < 9,
        c[p] == 0,
    ensures
        suit_best(c, p) == suit_best(c, p + 1),
{
}

/// Counts by threshold ignore a change that keeps the position on the same
/// side of the threshold.
proof fn lemma_num_update(c: Seq<int>, p: int, v: int, lo: int, hi: int, n: int)
    requires
        0 <= p < c.len(),
        0 <= lo,
        hi <= c.len(),
        (c[p] >= n) == (v >= n),
        (c[p] == n) == (v == n),
    ensures
        num_at_least(c.update(p, v), lo, hi, n) == num_at_least(c, lo, hi, n),
        num_exactly(c.update(p, v), lo, hi, n) == num_exactly(c, lo, hi, n),
    decreases hi - lo,
{
    if hi > lo {
        lemma_num_update(c, p, v, lo, hi - 1, n);
    }
}

/// Adding a kind that is not a standard candidate leaves melds and partial
/// sets as they were.
proof fn lemma_parts_non_candidate(c: Seq<int>, k: int)
    requires
        c.len() == 34,
        nonneg(c),
        0 <= k < 34,
        !normal_candidate(c, k),
    ensures
        parts(c.update(k, 1)) == parts(c),
{
    let d = c.update(k, 1);
    assert(c[k] == 0);
    lemma_num_update(c, k, 1, 27, 34, 3);
    lemma_num_update(c, k, 1, 27, 34, 2);
    let s = k / 9;
    assert forall|t: int| 0 <= t < 3 && t != s implies suit_of(d, t) =~= suit_of(c, t) by {
    }
    if k < 27 {
        let q = k - 9 * s;
        lemma_suit_nonneg(c, s);
        assert(suit_of(d, s) =~= suit_of(c, s).update(q, 1));
        assert forall|j: int| 0 <= j < 9 && -2 <= j - q <= 2 implies #[trigger] suit_of(c, s)[j] == 0 by {
            let x = 9 * s + j;
            assert(suit_of(c, s)[j] == c[x]);
            assert(suited_idx(x) && x / 9 == k / 9 && -2 <= x - k <= 2);
            if c[x] > 0 {
                assert(normal_candidate(c, k));
            }
        }
        lemma_suit_best_lonely(suit_of(c, s), q, 0);
    } else {
        assert(suit_of(d, 0) =~= suit_of(c, 0));
        assert(suit_of(d, 1) =~= suit_of(c, 1));
        assert(suit_of(d, 2) =~= suit_of(c, 2));
    }
}

proof fn lemma_headed_min_non_candidate(c: Seq<int>, k: int, h: int)
    requires
        c.len() == 34,
        nonneg(c),
        0 <= k < 34,
        !normal_candidate(c, k),
        0 <= h <= 34,
    ensures
        headed_min(c.update(k, 1), h) == headed_min(c, h),
    decreases h,
{
    let d = c.update(k, 1);
    assert(c[k] == 0);
    if h == 0 {
        lemma_parts_non_candidate(c, k);
    } else {
        lemma_headed_min_non_candidate(c, k, h - 1);
        let x = h - 1;
        if c[x] >= 2 {
            assert(x != k);
            let r = remove_pair(c, x);
            assert(remove_pair(d, x) =~= r.update(k, 1));
            assert(nonneg(r));
            assert(!normal_candidate(r, k)) by {
                if r[k] > 0 {
                }
                if suited_idx(k) && exists|j: int| suited_idx(j) && j / 9 == k / 9 && -2 <= j - k <= 2 && #[trigger] r[j] > 0 {
                    let j = choose|j: int| suited_idx(j) && j / 9 == k / 9 && -2 <= j - k <= 2 && #[trigger] r[j] > 0;
                    assert(c[j] >= r[j]);
                    assert(c[j] > 0);
                }
            }
            lemma_parts_non_candidate(r, k);
        }
    }
}

/// A kind that is neither held nor within two ranks of a held tile of its
/// suit never lowers the standard shanten: drawing it changes nothing.
pub proof fn lemma_non_candidate_no_gain(c: Seq<int>, k: int)
    requires
        c.len() == 34,
        nonneg(c),
        0 <= k < 34,
        !normal_candidate(c, k),
    ensures
        normal_shanten(c.update(k, c[k] + 1)) == normal_shanten(c),
        !improves(Shape::Normal, c, k),
{
    lemma_headed_min_non_candidate(c, k, 34);
}

/// For the standard shape, a kind is among the effective tiles exactly when
/// drawing it lowers the shanten, whichever of the 34 kinds it is.
pub proof fn lemma_normal_effective_exact(tiles: Seq<TileId>, k: int)
    requires
        0 <= k < 34,
    ensures
        effective_tiles(Shape::Normal, counts_of(tiles)).contains(kind_at(k)) <==> improves(Shape::Normal, counts_of(tiles), k),
{
    let c = counts_of(tiles);
    assert forall|j: int| 0 <= j < c.len() implies c[j] >= 0 by {
        lemma_count_idx_bounds(tiles, j);
    }
    lemma_effective_tiles_sorted(Shape::Normal, c);
    crate::types::lemma_idx_kind_at(k);
    let e = effective_tiles(Shape::Normal, c);
    if e.contains(kind_at(k)) {
        let i = choose|i: int| 0 <= i < e.len() && e[i] == kind_at(k);
        assert(e[i].idx() == k);
    }
    if improves(Shape::Normal, c, k) {
        if !normal_candidate(c, k) {
            lemma_non_candidate_no_gain(c, k);
        }
        lemma_effective_member(Shape::Normal, c, k, 34);
    }
}

proof fn lemma_effective_member(v: Shape, c: Seq<int>, k: int, hi: int)
    requires
        0 <= k < hi <= 34,
        candidate(v, c, k),
        improves(v, c, k),
    ensures
        effective_upto(v, c, hi).contains(kind_at(k)),
    decreases hi,
{
    let e = effective_upto(v, c, hi);
    if k < hi - 1 {
        lemma_effective_member(v, c, k, hi - 1);
        let p = effective_upto(v, c, hi - 1);
        let i = choose|i: int| 0 <= i < p.len() && p[i] == kind_at(k);
        assert(e[i] == p[i]);
    } else {
        assert(e[e.len() - 1] == kind_at(k));
    }
}


/// Effective tiles come out strictly ascending, so sorting them again changes
/// nothing; each is a legal kind that is a candidate of the shape, and
/// drawing it lowers the shape's shanten.
pub proof fn lemma_effective_tiles_sorted(v: Shape, c: Seq<int>)
    ensures
        forall|i: int, j: int| 0 <= i < j < effective_tiles(v, c).len() ==>
            (#[trigger] effective_tiles(v, c)[i]).idx() < (#[trigger] effective_tiles(v, c)[j]).idx(),
        forall|i: int| 0 <= i < effective_tiles(v, c).len() ==> {
            let k = (#[trigger] effective_tiles(v, c)[i]).idx();
            0 <= k < 34 && candidate(v, c, k) && improves(v, c, k)
        },
{
    lemma_effective_upto(v, c, 34);
}

proof fn lemma_effective_upto(v: Shape, c: Seq<int>, hi: int)
    requires
        0 <= hi <= 34,
    ensures
        forall|i: int, j: int| 0 <= i < j < effective_upto(v, c, hi).len() ==>
            (#[trigger] effective_upto(v, c, hi)[i]).idx() < (#[trigger] effective_upto(v, c, hi)[j]).idx(),
        forall|i: int| 0 <= i < effective_upto(v, c, hi).len() ==> {
            let k = (#[trigger] effective_upto(v, c, hi)[i]).idx();
            0 <= k < hi && candidate(v, c, k) && improves(v, c, k)
        },
    decreases hi,
{
    if hi > 0 {
        lemma_effective_upto(v, c, hi - 1);
        let p = effective_upto(v, c, hi - 1);
        let e = effective_upto(v, c, hi);
        crate::types::lemma_idx_kind_at(hi - 1);
        if candidate(v, c, hi - 1) && improves(v, c, hi - 1) {
            assert(e == p + seq![kind_at(hi - 1)]);
            assert forall|i: int| 0 <= i < e.len() implies {
                let k = (#[trigger] e[i]).idx();
                0 <= k < hi && candidate(v, c, k) && improves(v, c, k)
            } by {
                if i < p.len() {
                    assert(e[i] == p[i]);
                }
            }
            assert forall|i: int, j: int| 0 <= i < j < e.len() implies (#[trigger] e[i]).idx() < (#[trigger] e[j]).idx() by {
                assert(e[i] == p[i]);
                if j < p.len() {
                    assert(e[j] == p[j]);
                }
            }
        } else {
            assert(e =~= p);
        }
    }
}

} // verus!
