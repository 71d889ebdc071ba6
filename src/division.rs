//! Hands split into a head and melds: the patterns and fu that depend on the
//! split, and the search for the best-scoring split.
use vstd::prelude::*;
use crate::types::{
    dragon_idx, honor_idx, rank_idx, suited_idx, terminal_idx, yaochu_idx, TileId,
};
use crate::score::{
    add_yaku_spec, apply_rules, apply_yaku_rules, lemma_apply_rules_concat, roundup, roundup_spec,
    rule_view, AgariInformation, Yaku,
};
use crate::yaku::{menzen, wind_idx};
use crate::types::{as_ints, calculate_tile_counts, counts_of, ids, kind_at, meld_wf, wind_index, yaochu_at, Meld, MAX_TILES};
use crate::shanten::{counts_wf, remove_pair, take_run};

verus! {

/// A meld of a split hand.
#[derive(Clone, Copy, PartialEq, Eq, Structural, Debug)]
pub enum Mentsu {
    /// Claimed triplet (or a concealed triplet completed by a claimed tile).
    Pung { t: TileId },
    /// Claimed run, by its lowest tile.
    Chow { min: TileId },
    /// Concealed quad.
    Ankan { t: TileId },
    /// Open or added quad.
    Minkan { t: TileId },
    /// Concealed triplet.
    Anko { t: TileId },
    /// Concealed run, by its lowest tile.
    Syuntsu { min: TileId },
}

/// A run, claimed or concealed.
pub open spec fn is_run(m: Mentsu) -> bool {
    m is Chow || m is Syuntsu
}

/// Kind position of a meld: its tile for a triplet or quad, its lowest tile for a run.
pub open spec fn mentsu_kind(m: Mentsu) -> int {
    match m {
        Mentsu::Pung { t } => t.idx(),
        Mentsu::Chow { min } => min.idx(),
        Mentsu::Ankan { t } => t.idx(),
        Mentsu::Minkan { t } => t.idx(),
        Mentsu::Anko { t } => t.idx(),
        Mentsu::Syuntsu { min } => min.idx(),
    }
}

/// A run starts at rank 7 or lower of a suit.
pub open spec fn mentsu_wf(m: Mentsu) -> bool {
    is_run(m) ==> suited_idx(mentsu_kind(m)) && rank_idx(mentsu_kind(m)) <= 7
}

/// Every meld is well formed.
pub open spec fn all_mentsu_wf(ms: Seq<Mentsu>) -> bool {
    forall|i: int| 0 <= i < ms.len() ==> mentsu_wf(#[trigger] ms[i])
}

fn mentsu_kind_exec(m: &Mentsu) -> (r: usize)
    ensures
        r as int == mentsu_kind(*m),
        r < 34,
{
    match m {
        Mentsu::Pung { t } => t.index(),
        Mentsu::Chow { min } => min.index(),
        Mentsu::Ankan { t } => t.index(),
        Mentsu::Minkan { t } => t.index(),
        Mentsu::Anko { t } => t.index(),
        Mentsu::Syuntsu { min } => min.index(),
    }
}

/// The winning tile completes a run from its middle or its outer side.
pub open spec fn two_sided(w: int, mn: int) -> bool {
    (w == mn && rank_idx(mn) != 7) || (w == mn + 2 && rank_idx(mn) != 1)
}

/// All runs: concealed, fully concealed, the head no dragon or seat wind, and
/// a two-sided wait.
#[verifier::opaque]
pub open spec fn pinfu_spec(info: AgariInformation, head: int, ms: Seq<Mentsu>) -> bool {
    &&& info.hand.melds@.len() == 0
    &&& !dragon_idx(head)
    &&& head != wind_idx(info.player)
    &&& forall|i: int| 0 <= i < ms.len() ==> #[trigger] ms[i] is Syuntsu
    &&& exists|i: int| 0 <= i < ms.len() && two_sided(info.wining_tile.id.idx(), mentsu_kind(#[trigger] ms[i]))
}

/// Number of concealed runs starting at `k`.
pub open spec fn syuntsu_count(ms: Seq<Mentsu>, k: int) -> int
    decreases ms.len(),
{
    if ms.len() == 0 {
        0
    } else {
        syuntsu_count(ms.drop_last(), k) + if ms.last() is Syuntsu && mentsu_kind(ms.last()) == k { 1int } else { 0int }
    }
}

/// Number of pairs of identical concealed runs, over start kinds below `hi`.
pub open spec fn peko_upto(ms: Seq<Mentsu>, hi: int) -> int
    decreases hi,
{
    if hi <= 0 {
        0
    } else {
        peko_upto(ms, hi - 1) + syuntsu_count(ms, hi - 1) / 2
    }
}

/// Number of pairs of identical concealed runs.
pub open spec fn peko(ms: Seq<Mentsu>) -> int {
    peko_upto(ms, 34)
}

/// One pair of identical runs in a fully concealed hand.
pub open spec fn ipeko_spec(info: AgariInformation, ms: Seq<Mentsu>) -> bool {
    menzen(info) && peko(ms) == 1
}

/// Two pairs of identical runs, no melds at all.
pub open spec fn ryanpeko_spec(info: AgariInformation, ms: Seq<Mentsu>) -> bool {
    info.hand.melds@.len() == 0 && peko(ms) == 2
}

/// Three runs of the same ranks in three suits, among melds `i`, `j`, `k`.
pub open spec fn same_run_three(ms: Seq<Mentsu>, i: int, j: int, k: int) -> bool {
    let a = mentsu_kind(ms[i]);
    let b = mentsu_kind(ms[j]);
    let d = mentsu_kind(ms[k]);
    &&& is_run(ms[i]) && is_run(ms[j]) && is_run(ms[k])
    &&& rank_idx(a) == rank_idx(b) && rank_idx(b) == rank_idx(d)
    &&& a != b && b != d && d != a
}

/// Mixed triple run among the first four melds.
pub open spec fn sansyokudoujyun_spec(ms: Seq<Mentsu>) -> bool {
    same_run_three(ms, 0, 1, 2) || same_run_three(ms, 0, 1, 3) || same_run_three(ms, 0, 2, 3)
        || same_run_three(ms, 1, 2, 3)
}

/// Some run covers the kind at `x`.
pub open spec fn covered(ms: Seq<Mentsu>, x: int) -> bool {
    exists|i: int| 0 <= i < ms.len() && is_run(ms[i]) && mentsu_kind(#[trigger] ms[i]) <= x <= mentsu_kind(ms[i]) + 2
}

/// Runs cover 1 to 9 of suit `s`.
pub open spec fn suit_covered(ms: Seq<Mentsu>, s: int) -> bool {
    forall|r: int| 0 <= r < 9 ==> #[trigger] covered(ms, 9 * s + r)
}

/// Pure straight: runs cover 1 to 9 of one suit.
#[verifier::opaque]
pub open spec fn ikkitsukan_spec(ms: Seq<Mentsu>) -> bool {
    suit_covered(ms, 0) || suit_covered(ms, 1) || suit_covered(ms, 2)
}

/// Triplet or quad.
pub open spec fn is_set(m: Mentsu) -> bool {
    !is_run(m)
}

/// Terminals in every meld and the head, at least one run.
pub open spec fn chanta_common(head: int, ms: Seq<Mentsu>) -> bool {
    &&& yaochu_idx(head)
    &&& forall|i: int| 0 <= i < ms.len() ==> {
        let k = mentsu_kind(#[trigger] ms[i]);
        (is_run(ms[i]) ==> (rank_idx(k) == 1 || rank_idx(k) == 7)) && (is_set(ms[i]) ==> yaochu_idx(k))
    }
    &&& exists|i: int| 0 <= i < ms.len() && is_run(#[trigger] ms[i])
}

/// Terminal or honor in each group, with some honor.
#[verifier::opaque]
pub open spec fn chanta_spec(head: int, ms: Seq<Mentsu>) -> bool {
    &&& (honor_idx(head) || exists|i: int| 0 <= i < ms.len() && honor_idx(mentsu_kind(#[trigger] ms[i])))
    &&& chanta_common(head, ms)
}

/// Terminal in each group, no honor.
#[verifier::opaque]
pub open spec fn jyunchanta_spec(head: int, ms: Seq<Mentsu>) -> bool {
    &&& terminal_idx(head)
    &&& forall|i: int| 0 <= i < ms.len() ==> !honor_idx(mentsu_kind(#[trigger] ms[i]))
    &&& chanta_common(head, ms)
}

/// All triplets.
pub open spec fn toitoiho_spec(ms: Seq<Mentsu>) -> bool {
    forall|i: int| 0 <= i < ms.len() ==> !is_run(#[trigger] ms[i])
}

/// Number of concealed triplets and quads.
pub open spec fn concealed_sets(ms: Seq<Mentsu>) -> int
    decreases ms.len(),
{
    if ms.len() == 0 {
        0
    } else {
        concealed_sets(ms.drop_last()) + if ms.last() is Anko || ms.last() is Ankan { 1int } else { 0int }
    }
}

/// Three concealed triplets.
pub open spec fn sananko_spec(ms: Seq<Mentsu>) -> bool {
    concealed_sets(ms) >= 3
}

/// Melds `i` and `j` are triplets of the same rank.
pub open spec fn same_rank_sets(ms: Seq<Mentsu>, i: int, j: int) -> int {
    let a = mentsu_kind(ms[i]);
    let b = mentsu_kind(ms[j]);
    if is_set(ms[i]) && is_set(ms[j]) && suited_idx(a) && suited_idx(b) && rank_idx(a) == rank_idx(b) {
        1
    } else {
        0
    }
}

/// Triple triplets: among the first four melds, three pairs of triplets of
/// the same rank.
pub open spec fn sansyokudoukoku_spec(ms: Seq<Mentsu>) -> bool {
    same_rank_sets(ms, 0, 1) + same_rank_sets(ms, 0, 2) + same_rank_sets(ms, 0, 3)
        + same_rank_sets(ms, 1, 2) + same_rank_sets(ms, 1, 3) + same_rank_sets(ms, 2, 3) >= 3
}

/// Split-dependent patterns: pinfu, identical runs, straight, three colours.
pub open spec fn division_rules_a(info: AgariInformation, head: int, ms: Seq<Mentsu>) -> Seq<(bool, Yaku, int)> {
    let m = menzen(info);
    seq![
        (pinfu_spec(info, head, ms), Yaku::Pinfu, 1int),
        (ryanpeko_spec(info, ms), Yaku::Ryanpeko, 3int),
        (ipeko_spec(info, ms), Yaku::Ipeko, 1int),
        (ikkitsukan_spec(ms), Yaku::Ikkitsukan, if m { 2int } else { 1int }),
        (sansyokudoujyun_spec(ms), Yaku::Sansyokudoujyun, if m { 2int } else { 1int }),
    ]
}

/// Split-dependent patterns: triplets and terminals.
pub open spec fn division_rules_b(info: AgariInformation, head: int, ms: Seq<Mentsu>) -> Seq<(bool, Yaku, int)> {
    let m = menzen(info);
    seq![
        (sansyokudoukoku_spec(ms), Yaku::Sansyokudoukoku, 2int),
        (jyunchanta_spec(head, ms), Yaku::Jyunchanta, if m { 3int } else { 2int }),
        (chanta_spec(head, ms), Yaku::Chanta, if m { 2int } else { 1int }),
        (toitoiho_spec(ms), Yaku::Toitoiho, 2int),
        (sananko_spec(ms), Yaku::Sananko, 2int),
    ]
}

/// Han and patterns of a split.
pub open spec fn division_yaku_han(info: AgariInformation, head: int, ms: Seq<Mentsu>) -> (int, Seq<Yaku>) {
    apply_rules(apply_rules((0, seq![]), division_rules_a(info, head, ms)), division_rules_b(info, head, ms))
}

/// The winning tile completes the run at an edge (the 3 of 1-2-3, the 7 of
/// 7-8-9) or in its middle: the run waits that earn fu.
pub open spec fn closed_wait(w: int, mn: int) -> bool {
    (rank_idx(w) == 3 && w == mn + 2) || (rank_idx(w) == 7 && w == mn) || w == mn + 1
}

/// Fu of the wait: a pair wait, or a run that the winning tile completes at
/// its edge or middle.
pub open spec fn wait_fu(info: AgariInformation, head: int, ms: Seq<Mentsu>) -> int {
    let w = info.wining_tile.id.idx();
    if w == head {
        2
    } else if suited_idx(w) && exists|i: int| 0 <= i < ms.len() && is_run(ms[i]) && closed_wait(w, mentsu_kind(#[trigger] ms[i])) {
        2
    } else {
        0
    }
}

/// Fu of the head: a dragon or the round wind, and the seat wind.
pub open spec fn head_fu(info: AgariInformation, head: int) -> int {
    (if dragon_idx(head) || head == wind_idx(info.round) { 2int } else { 0int }) + if head == wind_idx(info.player) { 2int } else { 0int }
}

/// Fu of one meld: doubled for terminals and honors, concealed sets and quads.
pub open spec fn meld_fu(m: Mentsu) -> int {
    let y = yaochu_idx(mentsu_kind(m));
    match m {
        Mentsu::Anko { .. } => if y { 8 } else { 4 },
        Mentsu::Pung { .. } => if y { 4 } else { 2 },
        Mentsu::Ankan { .. } => if y { 32 } else { 16 },
        Mentsu::Minkan { .. } => if y { 16 } else { 8 },
        _ => 0,
    }
}

/// Fu of all melds.
pub open spec fn melds_fu(ms: Seq<Mentsu>) -> int
    decreases ms.len(),
{
    if ms.len() == 0 {
        0
    } else {
        melds_fu(ms.drop_last()) + meld_fu(ms.last())
    }
}

/// Fu before rounding: 20, concealed claim 10, self-draw 2, wait, head, melds.
pub open spec fn raw_fu(info: AgariInformation, head: int, ms: Seq<Mentsu>) -> int {
    20 + (if menzen(info) && !info.tsumo { 10int } else { 0int }) + (if info.tsumo { 2int } else { 0int })
        + wait_fu(info, head, ms) + head_fu(info, head) + melds_fu(ms)
}

/// Fu of a split: pinfu is 20 self-drawn and 30 claimed; otherwise a bare 20
/// becomes 30, and the total is rounded up to a multiple of 10.
pub open spec fn division_fu(info: AgariInformation, head: int, ms: Seq<Mentsu>) -> int {
    if pinfu_spec(info, head, ms) {
        if info.tsumo { 20 } else { 30 }
    } else {
        let f = raw_fu(info, head, ms);
        roundup_spec(if f == 20 { 30 } else { f }, 10)
    }
}

/// Han, fu and patterns of a split.
#[verifier::opaque]
pub open spec fn leaf(info: AgariInformation, head: int, ms: Seq<Mentsu>) -> (int, int, Seq<Yaku>) {
    let y = division_yaku_han(info, head, ms);
    (y.0, division_fu(info, head, ms), y.1)
}


/// A hand split into a head and melds.
pub struct DividedHand {
    /// The head (pair).
    pub atama: TileId,
    /// The melds, called ones first.
    pub mentsu: Vec<Mentsu>,
}

/// A split that scoring can read: well-formed melds, four or more of them.
pub open spec fn division_wf(ms: Seq<Mentsu>) -> bool {
    all_mentsu_wf(ms) && 4 <= ms.len() <= 100
}

/// All runs with a two-sided wait, no melds, no value head.
fn is_pinfu(info: &AgariInformation, d: &DividedHand) -> (r: bool)
    requires
        division_wf(d.mentsu@),
    ensures
        r == pinfu_spec(*info, d.atama.idx(), d.mentsu@),
{
    reveal(pinfu_spec);
    let ms = &d.mentsu;
    if info.hand.melds.len() > 0 {
        return false;
    }
    let h = d.atama.index();
    if h >= 31 || h == wind_index(info.player) {
        return false;
    }
    let w = info.wining_tile.id.index();
    let mut est = false;
    let mut i: usize = 0;
    while i < ms.len()
        invariant
            ms@ == d.mentsu@,
            i <= ms@.len(),
            w as int == info.wining_tile.id.idx(),
            forall|j: int| 0 <= j < i ==> #[trigger] ms@[j] is Syuntsu,
            est <==> exists|j: int| 0 <= j < i && two_sided(w as int, mentsu_kind(#[trigger] ms@[j])),
        decreases ms@.len() - i,
    {
        match ms[i] {
            Mentsu::Syuntsu { min } => {
                let mn = min.index();
                if (w == mn && mn % 9 != 6) || (w == mn + 2 && mn % 9 != 0) {
                    est = true;
                    assert(two_sided(w as int, mentsu_kind(ms@[i as int])));
                }
            },
            _ => {
                assert(!(ms@[i as int] is Syuntsu));
                proof {
                    reveal(pinfu_spec);
                }
                return false;
            },
        }
        proof {
            if !est {
                assert forall|j: int| 0 <= j < i + 1 implies !two_sided(w as int, mentsu_kind(#[trigger] ms@[j])) by {
                    if j < i {
                    }
                }
            }
        }
        i = i + 1;
    }
    est
}

/// Pairs of identical concealed runs.
fn count_num_peko(ms: &Vec<Mentsu>) -> (r: i32)
    requires
        ms@.len() <= 100,
    ensures
        r as int == peko(ms@),
        0 <= r <= 3400,
{
    let mut cnt: Vec<i32> = Vec::new();
    let mut k: usize = 0;
    while k < 34
        invariant
            k <= 34,
            cnt@.len() == k,
            forall|x: int| 0 <= x < k ==> cnt@[x] == 0,
        decreases 34 - k,
    {
        cnt.push(0);
        k = k + 1;
    }
    let mut i: usize = 0;
    while i < ms.len()
        invariant
            i <= ms@.len(),
            ms@.len() <= 100,
            cnt@.len() == 34,
            forall|x: int| 0 <= x < 34 ==> #[trigger] cnt@[x] as int == syuntsu_count(ms@.take(i as int), x),
            forall|x: int| 0 <= x < 34 ==> 0 <= #[trigger] cnt@[x] <= i,
        decreases ms@.len() - i,
    {
        proof {
            assert(ms@.take(i as int + 1).drop_last() =~= ms@.take(i as int));
        }
        match ms[i] {
            Mentsu::Syuntsu { min } => {
                let x = min.index();
                let v = cnt[x];
                cnt.set(x, v + 1);
            },
            _ => {},
        }
        i = i + 1;
    }
    proof {
        assert(ms@.take(i as int) =~= ms@);
    }
    let mut total: i32 = 0;
    let mut k: usize = 0;
    while k < 34
        invariant
            k <= 34,
            cnt@.len() == 34,
            forall|x: int| 0 <= x < 34 ==> #[trigger] cnt@[x] as int == syuntsu_count(ms@, x),
            forall|x: int| 0 <= x < 34 ==> 0 <= #[trigger] cnt@[x] <= 100,
            total as int == peko_upto(ms@, k as int),
            0 <= total <= 100 * k,
        decreases 34 - k,
    {
        total = total + cnt[k] / 2;
        k = k + 1;
    }
    total
}

/// One pair of identical runs, fully concealed.
fn is_ipeko(info: &AgariInformation, d: &DividedHand) -> (r: bool)
    requires
        d.mentsu@.len() <= 100,
    ensures
        r == ipeko_spec(*info, d.mentsu@),
{
    if !info.hand.is_menzen() {
        return false;
    }
    count_num_peko(&d.mentsu) == 1
}

/// Two pairs of identical runs, no melds.
fn is_ryanpeko(info: &AgariInformation, d: &DividedHand) -> (r: bool)
    requires
        d.mentsu@.len() <= 100,
    ensures
        r == ryanpeko_spec(*info, d.mentsu@),
{
    if info.hand.melds.len() > 0 {
        return false;
    }
    count_num_peko(&d.mentsu) == 2
}

fn run_min(m: &Mentsu) -> (r: Option<usize>)
    ensures
        r is Some <==> is_run(*m),
        r is Some ==> r->0 as int == mentsu_kind(*m) && r->0 < 34,
{
    match m {
        Mentsu::Chow { min } | Mentsu::Syuntsu { min } => Some(min.index()),
        _ => None,
    }
}

fn same_run_three_exec(ms: &Vec<Mentsu>, i: usize, j: usize, k: usize) -> (r: bool)
    requires
        i < ms@.len(),
        j < ms@.len(),
        k < ms@.len(),
    ensures
        r == same_run_three(ms@, i as int, j as int, k as int),
{
    match (run_min(&ms[i]), run_min(&ms[j]), run_min(&ms[k])) {
        (Some(a), Some(b), Some(d)) => a % 9 == b % 9 && b % 9 == d % 9 && a != b && b != d && d != a,
        _ => false,
    }
}

/// The same run in all three suits among the first four melds.
fn is_sansyokudoujyun(d: &DividedHand) -> (r: bool)
    requires
        d.mentsu@.len() >= 4,
    ensures
        r == sansyokudoujyun_spec(d.mentsu@),
{
    let ms = &d.mentsu;
    same_run_three_exec(ms, 0, 1, 2) || same_run_three_exec(ms, 0, 1, 3) || same_run_three_exec(ms, 0, 2, 3)
        || same_run_three_exec(ms, 1, 2, 3)
}

/// Runs covering 1 to 9 of one suit.
fn is_ikkitsukan(d: &DividedHand) -> (r: bool)
    requires
        all_mentsu_wf(d.mentsu@),
    ensures
        r == ikkitsukan_spec(d.mentsu@),
{
    reveal(ikkitsukan_spec);
    let ms = &d.mentsu;
    let mut marks: Vec<bool> = Vec::new();
    let mut k: usize = 0;
    while k < 34
        invariant
            ms@ == d.mentsu@,
            k <= 34,
            marks@.len() == k,
            forall|x: int| 0 <= x < k ==> !marks@[x],
        decreases 34 - k,
    {
        marks.push(false);
        k = k + 1;
    }
    let mut i: usize = 0;
    while i < ms.len()
        invariant
            ms@ == d.mentsu@,
            i <= ms@.len(),
            all_mentsu_wf(ms@),
            marks@.len() == 34,
            forall|x: int| 0 <= x < 34 ==> #[trigger] marks@[x] == covered(ms@.take(i as int), x),
        decreases ms@.len() - i,
    {
        let ghost pre = ms@.take(i as int);
        let ghost post = ms@.take(i as int + 1);
        assert(mentsu_wf(ms@[i as int]));
        match run_min(&ms[i]) {
            Some(mn) => {
                marks.set(mn, true);
                marks.set(mn + 1, true);
                marks.set(mn + 2, true);
            },
            None => {},
        }
        proof {
            assert forall|x: int| 0 <= x < 34 implies #[trigger] marks@[x] == covered(post, x) by {
                if covered(pre, x) {
                    let j = choose|j: int| 0 <= j < pre.len() && is_run(pre[j]) && mentsu_kind(#[trigger] pre[j]) <= x <= mentsu_kind(pre[j]) + 2;
                    assert(post[j] == pre[j]);
                }
                if covered(post, x) {
                    let j = choose|j: int| 0 <= j < post.len() && is_run(post[j]) && mentsu_kind(#[trigger] post[j]) <= x <= mentsu_kind(post[j]) + 2;
                    if j < i {
                        assert(pre[j] == post[j]);
                    }
                }
                if is_run(ms@[i as int]) && mentsu_kind(ms@[i as int]) <= x <= mentsu_kind(ms@[i as int]) + 2 {
                    assert(post[i as int] == ms@[i as int]);
                }
            }
        }
        i = i + 1;
    }
    proof {
        assert(ms@.take(i as int) =~= ms@);
    }
    let mut s: usize = 0;
    while s < 3
        invariant
            ms@ == d.mentsu@,
            s <= 3,
            marks@.len() == 34,
            forall|x: int| 0 <= x < 34 ==> #[trigger] marks@[x] == covered(ms@, x),
            forall|t: int| 0 <= t < s ==> !suit_covered(ms@, t),
        decreases 3 - s,
    {
        let mut r: usize = 0;
        let mut all = true;
        while r < 9
            invariant
                ms@ == d.mentsu@,
                r <= 9,
                s < 3,
                marks@.len() == 34,
                forall|x: int| 0 <= x < 34 ==> #[trigger] marks@[x] == covered(ms@, x),
                all <==> forall|q: int| 0 <= q < r ==> #[trigger] covered(ms@, 9 * s + q),
            decreases 9 - r,
        {
            if !marks[9 * s + r] {
                all = false;
            }
            r = r + 1;
        }
        if all {
            proof {
                reveal(ikkitsukan_spec);
                assert(suit_covered(ms@, s as int));
            }
            return true;
        }
        s = s + 1;
    }
    false
}

/// Each meld's kind (both kinds of groups) and the head pass the terminal rule.
fn is_chanta_common(d: &DividedHand) -> (r: bool)
    requires
        all_mentsu_wf(d.mentsu@),
    ensures
        r == chanta_common(d.atama.idx(), d.mentsu@),
{
    let ms = &d.mentsu;
    if !d.atama.is_yaochu() {
        return false;
    }
    let mut syuntsu = false;
    let mut i: usize = 0;
    while i < ms.len()
        invariant
            ms@ == d.mentsu@,
            i <= ms@.len(),
            yaochu_idx(d.atama.idx()),
            forall|j: int| 0 <= j < i ==> {
                let k = mentsu_kind(#[trigger] ms@[j]);
                (is_run(ms@[j]) ==> (rank_idx(k) == 1 || rank_idx(k) == 7)) && (is_set(ms@[j]) ==> yaochu_idx(k))
            },
            syuntsu <==> exists|j: int| 0 <= j < i && is_run(#[trigger] ms@[j]),
        decreases ms@.len() - i,
    {
        let k = mentsu_kind_exec(&ms[i]);
        match run_min(&ms[i]) {
            Some(mn) => {
                if mn % 9 != 0 && mn % 9 != 6 {
                    assert(is_run(ms@[i as int]) && !(rank_idx(mentsu_kind(ms@[i as int])) == 1 || rank_idx(mentsu_kind(ms@[i as int])) == 7));
                    return false;
                }
                syuntsu = true;
            },
            None => {
                if !yaochu_at(k) {
                    assert(is_set(ms@[i as int]) && !yaochu_idx(mentsu_kind(ms@[i as int])));
                    return false;
                }
            },
        }
        proof {
            if !syuntsu {
                assert forall|j: int| 0 <= j < i + 1 implies !is_run(#[trigger] ms@[j]) by {
                    if j < i {
                    }
                }
            }
        }
        i = i + 1;
    }
    syuntsu
}

fn any_honor_kind(ms: &Vec<Mentsu>) -> (r: bool)
    ensures
        r == exists|i: int| 0 <= i < ms@.len() && honor_idx(mentsu_kind(#[trigger] ms@[i])),
{
    let mut i: usize = 0;
    while i < ms.len()
        invariant
            i <= ms@.len(),
            forall|j: int| 0 <= j < i ==> !honor_idx(mentsu_kind(#[trigger] ms@[j])),
        decreases ms@.len() - i,
    {
        if mentsu_kind_exec(&ms[i]) >= 27 {
            assert(honor_idx(mentsu_kind(ms@[i as int])));
            return true;
        }
        i = i + 1;
    }
    false
}

/// Terminals or honors in every group, with an honor.
fn is_chanta(d: &DividedHand) -> (r: bool)
    requires
        all_mentsu_wf(d.mentsu@),
    ensures
        r == chanta_spec(d.atama.idx(), d.mentsu@),
{
    reveal(chanta_spec);
    if !d.atama.is_yaochu() {
        return false;
    }
    let jihai = d.atama.is_jihai() || any_honor_kind(&d.mentsu);
    jihai && is_chanta_common(d)
}

/// Terminals in every group, no honor.
fn is_jyunchanta(d: &DividedHand) -> (r: bool)
    requires
        all_mentsu_wf(d.mentsu@),
    ensures
        r == jyunchanta_spec(d.atama.idx(), d.mentsu@),
{
    reveal(jyunchanta_spec);
    if !d.atama.is_routou() {
        return false;
    }
    if any_honor_kind(&d.mentsu) {
        return false;
    }
    is_chanta_common(d)
}

/// No run at all.
fn is_toitoiho(d: &DividedHand) -> (r: bool)
    ensures
        r == toitoiho_spec(d.mentsu@),
{
    let ms = &d.mentsu;
    let mut i: usize = 0;
    while i < ms.len()
        invariant
            ms@ == d.mentsu@,
            i <= ms@.len(),
            forall|j: int| 0 <= j < i ==> !is_run(#[trigger] ms@[j]),
        decreases ms@.len() - i,
    {
        if run_min(&ms[i]).is_some() {
            assert(is_run(d.mentsu@[i as int]));
            return false;
        }
        i = i + 1;
    }
    true
}

/// Three or more concealed triplets or quads.
fn is_sananko(d: &DividedHand) -> (r: bool)
    requires
        d.mentsu@.len() <= 100,
    ensures
        r == sananko_spec(d.mentsu@),
{
    let ms = &d.mentsu;
    let mut n: i32 = 0;
    let mut i: usize = 0;
    while i < ms.len()
        invariant
            ms@ == d.mentsu@,
            i <= ms@.len(),
            ms@.len() <= 100,
            n as int == concealed_sets(ms@.take(i as int)),
            0 <= n <= i,
        decreases ms@.len() - i,
    {
        proof {
            assert(ms@.take(i as int + 1).drop_last() =~= ms@.take(i as int));
        }
        match ms[i] {
            Mentsu::Anko { .. } | Mentsu::Ankan { .. } => {
                n = n + 1;
            },
            _ => {},
        }
        i = i + 1;
    }
    proof {
        assert(ms@.take(i as int) =~= ms@);
    }
    n >= 3
}

fn same_rank_sets_exec(ms: &Vec<Mentsu>, i: usize, j: usize) -> (r: i32)
    requires
        i < ms@.len(),
        j < ms@.len(),
    ensures
        r as int == same_rank_sets(ms@, i as int, j as int),
{
    let a = mentsu_kind_exec(&ms[i]);
    let b = mentsu_kind_exec(&ms[j]);
    if run_min(&ms[i]).is_none() && run_min(&ms[j]).is_none() && a < 27 && b < 27 && a % 9 == b % 9 {
        1
    } else {
        0
    }
}

/// Triplets of the same rank in three suits among the first four melds.
fn is_sansyokudoukoku(d: &DividedHand) -> (r: bool)
    requires
        d.mentsu@.len() >= 4,
    ensures
        r == sansyokudoukoku_spec(d.mentsu@),
{
    let ms = &d.mentsu;
    let n = same_rank_sets_exec(ms, 0, 1) + same_rank_sets_exec(ms, 0, 2) + same_rank_sets_exec(ms, 0, 3)
        + same_rank_sets_exec(ms, 1, 2) + same_rank_sets_exec(ms, 1, 3) + same_rank_sets_exec(ms, 2, 3);
    n >= 3
}


/// Han and patterns that depend on the split.
pub fn calculate_yaku_han_from_dividedhand(info: &AgariInformation, d: &DividedHand) -> (r: (Vec<Yaku>, i32))
    requires
        division_wf(d.mentsu@),
    ensures
        (r.1 as int, r.0@) == division_yaku_han(*info, d.atama.idx(), d.mentsu@),
        0 <= r.1 <= 260,
{
    let m = info.hand.is_menzen();
    let pinfu = is_pinfu(info, d);
    let ryanpeko = is_ryanpeko(info, d);
    let ipeko = is_ipeko(info, d);
    let ikki = is_ikkitsukan(d);
    let doujyun = is_sansyokudoujyun(d);
    let doukoku = is_sansyokudoukoku(d);
    let jyunchanta = is_jyunchanta(d);
    let chanta = is_chanta(d);
    let toitoi = is_toitoiho(d);
    let sananko = is_sananko(d);
    let rules_a = vec![
        (pinfu, Yaku::Pinfu, 1i32),
        (ryanpeko, Yaku::Ryanpeko, 3i32),
        (ipeko, Yaku::Ipeko, 1i32),
        (ikki, Yaku::Ikkitsukan, if m { 2i32 } else { 1i32 }),
        (doujyun, Yaku::Sansyokudoujyun, if m { 2i32 } else { 1i32 }),
    ];
    let rules_b = vec![
        (doukoku, Yaku::Sansyokudoukoku, 2i32),
        (jyunchanta, Yaku::Jyunchanta, if m { 3i32 } else { 2i32 }),
        (chanta, Yaku::Chanta, if m { 2i32 } else { 1i32 }),
        (toitoi, Yaku::Toitoiho, 2i32),
        (sananko, Yaku::Sananko, 2i32),
    ];
    proof {
        assert(rules_a@.map_values(|r: (bool, Yaku, i32)| rule_view(r)) =~= division_rules_a(*info, d.atama.idx(), d.mentsu@));
        assert(rules_b@.map_values(|r: (bool, Yaku, i32)| rule_view(r)) =~= division_rules_b(*info, d.atama.idx(), d.mentsu@));
    }
    let mut yaku: Vec<Yaku> = Vec::new();
    let mut han: i32 = 0;
    apply_yaku_rules(&mut yaku, &mut han, &rules_a);
    apply_yaku_rules(&mut yaku, &mut han, &rules_b);
    (yaku, han)
}

fn meld_fu_exec(m: &Mentsu) -> (r: i32)
    ensures
        r as int == meld_fu(*m),
        0 <= r <= 32,
{
    let y = yaochu_at(mentsu_kind_exec(m));
    match m {
        Mentsu::Anko { .. } => if y { 8 } else { 4 },
        Mentsu::Pung { .. } => if y { 4 } else { 2 },
        Mentsu::Ankan { .. } => if y { 32 } else { 16 },
        Mentsu::Minkan { .. } => if y { 16 } else { 8 },
        _ => 0,
    }
}

fn wait_fu_exec(info: &AgariInformation, d: &DividedHand) -> (r: i32)
    ensures
        r as int == wait_fu(*info, d.atama.idx(), d.mentsu@),
{
    let w = info.wining_tile.id.index();
    if w == d.atama.index() {
        return 2;
    }
    if w >= 27 {
        return 0;
    }
    let ms = &d.mentsu;
    let mut found = false;
    let mut i: usize = 0;
    while i < ms.len()
        invariant
            i <= ms@.len(),
            ms@ == d.mentsu@,
            w as int == info.wining_tile.id.idx(),
            w < 27,
            found <==> exists|j: int| 0 <= j < i && is_run(ms@[j]) && closed_wait(w as int, mentsu_kind(#[trigger] ms@[j])),
        decreases ms@.len() - i,
    {
        match run_min(&ms[i]) {
            Some(mn) => {
                if (w % 9 == 2 && w == mn + 2) || (w % 9 == 6 && w == mn) || w == mn + 1 {
                    found = true;
                    assert(is_run(ms@[i as int]) && closed_wait(w as int, mentsu_kind(ms@[i as int])));
                }
            },
            None => {},
        }
        proof {
            if !found {
                assert forall|j: int| 0 <= j < i + 1 implies !(is_run(ms@[j]) && closed_wait(w as int, mentsu_kind(#[trigger] ms@[j]))) by {
                    if j < i {
                    }
                }
            }
        }
        i = i + 1;
    }
    if found { 2 } else { 0 }
}

fn melds_fu_exec(ms: &Vec<Mentsu>) -> (r: i32)
    requires
        ms@.len() <= 100,
    ensures
        r as int == melds_fu(ms@),
        0 <= r <= 3200,
{
    let mut f: i32 = 0;
    let mut i: usize = 0;
    while i < ms.len()
        invariant
            i <= ms@.len(),
            ms@.len() <= 100,
            f as int == melds_fu(ms@.take(i as int)),
            0 <= f <= 32 * i,
        decreases ms@.len() - i,
    {
        proof {
            assert(ms@.take(i as int + 1).drop_last() =~= ms@.take(i as int));
        }
        f = f + meld_fu_exec(&ms[i]);
        i = i + 1;
    }
    proof {
        assert(ms@.take(i as int) =~= ms@);
    }
    f
}

/// Fu of the split, rounded up to a multiple of 10.
pub fn calculate_fu_from_dividedhand(info: &AgariInformation, d: &DividedHand) -> (r: i32)
    requires
        division_wf(d.mentsu@),
    ensures
        r as int == division_fu(*info, d.atama.idx(), d.mentsu@),
        0 <= r <= 3300,
        r % 10 == 0,
{
    if is_pinfu(info, d) {
        return if info.tsumo { 20 } else { 30 };
    }
    let mut fu: i32 = 20;
    if info.hand.is_menzen() && !info.tsumo {
        fu = fu + 10;
    }
    if info.tsumo {
        fu = fu + 2;
    }
    fu = fu + wait_fu_exec(info, d);
    let h = d.atama.index();
    if h >= 31 || h == wind_index(info.round) {
        fu = fu + 2;
    }
    if h == wind_index(info.player) {
        fu = fu + 2;
    }
    fu = fu + melds_fu_exec(&d.mentsu);
    if fu == 20 {
        fu = 30;
    }
    roundup(fu, 10)
}

/// Intermediate result of a score: han, fu and patterns.
pub struct ScoreTriple {
    pub han: i32,
    pub fu: i32,
    pub yaku: Vec<Yaku>,
}

impl ScoreTriple {
    /// Han, fu and patterns as values.
    pub open spec fn view_triple(&self) -> (int, int, Seq<Yaku>) {
        (self.han as int, self.fu as int, self.yaku@)
    }
}

/// `a` scores at least as high as `b`: more han, or as many han and as much fu.
pub open spec fn ge(a: (int, int, Seq<Yaku>), b: (int, int, Seq<Yaku>)) -> bool {
    a.0 > b.0 || (a.0 == b.0 && a.1 >= b.1)
}

/// `a` scores strictly higher than `b`: more han, or as many han and more fu.
pub open spec fn beats(a: (int, int, Seq<Yaku>), b: (int, int, Seq<Yaku>)) -> bool {
    a.0 > b.0 || (a.0 == b.0 && a.1 > b.1)
}

/// Bounds of a split's score.
pub open spec fn triple_in_bounds(t: (int, int, Seq<Yaku>)) -> bool {
    0 <= t.0 <= 260 && 0 <= t.1 <= 3300
}

/// Keeps the split's score when it beats the best so far (more han, or as
/// many han and more fu).
fn update_score_from_dividedhand(info: &AgariInformation, d: &DividedHand, best: &mut ScoreTriple)
    requires
        division_wf(d.mentsu@),
        triple_in_bounds(old(best).view_triple()),
    ensures
        ({
            let l = leaf(*info, d.atama.idx(), d.mentsu@);
            &&& final(best).view_triple() == if beats(l, old(best).view_triple()) { l } else { old(best).view_triple() }
            &&& ge(final(best).view_triple(), old(best).view_triple())
            &&& ge(final(best).view_triple(), l)
            &&& triple_in_bounds(final(best).view_triple())
        }),
{
    proof {
        reveal(leaf);
    }
    let (yaku, han) = calculate_yaku_han_from_dividedhand(info, d);
    let fu = calculate_fu_from_dividedhand(info, d);
    if han > best.han || (han == best.han && fu > best.fu) {
        best.han = han;
        best.fu = fu;
        best.yaku = yaku;
    }
}

/// The meld the search forms from three tiles of the kind at `k`: a claimed
/// triplet when the winning tile was claimed and is of that kind.
pub open spec fn triplet_mentsu(info: AgariInformation, k: int) -> Mentsu {
    if k == info.wining_tile.id.idx() && !info.tsumo {
        Mentsu::Pung { t: kind_at(k) }
    } else {
        Mentsu::Anko { t: kind_at(k) }
    }
}

/// A concealed run from the kind at `k`.
pub open spec fn run_mentsu(k: int) -> Mentsu {
    Mentsu::Syuntsu { min: kind_at(k) }
}

/// The search can form `m` from the remaining counts.
pub open spec fn can_form(info: AgariInformation, remain: Seq<int>, m: Mentsu) -> bool {
    let k = mentsu_kind(m);
    ||| (m == triplet_mentsu(info, k) && remain[k] >= 3)
    ||| (m == run_mentsu(k) && suited_idx(k) && rank_idx(k) <= 7 && remain[k] > 0 && remain[k + 1] > 0 && remain[k + 2] > 0)
}

/// Counts after `m` is taken.
pub open spec fn take_mentsu(remain: Seq<int>, m: Mentsu) -> Seq<int> {
    let k = mentsu_kind(m);
    if is_run(m) {
        take_run(remain, k)
    } else {
        remain.update(k, remain[k] - 3)
    }
}

/// The melds `ms` can be taken one after another from `remain`.
pub open spec fn completes(info: AgariInformation, remain: Seq<int>, ms: Seq<Mentsu>) -> bool
    decreases ms.len(),
{
    if ms.len() == 0 {
        true
    } else {
        can_form(info, remain, ms[0]) && completes(info, take_mentsu(remain, ms[0]), ms.skip(1))
    }
}

/// Melds still to find when `n` are there.
pub open spec fn need(n: nat) -> int {
    if n >= 4 { 0 } else { 4 - n }
}

/// The search's result over the completions of `ms` from `remain`: at least
/// `start`, at least every completion, and `start` or one of them.
pub open spec fn search_result(info: AgariInformation, head: int, remain: Seq<int>, ms: Seq<Mentsu>, start: (int, int, Seq<Yaku>), r: (int, int, Seq<Yaku>)) -> bool {
    &&& ge(r, start)
    &&& forall|l: Seq<Mentsu>| completes(info, remain, l) && l.len() == need(ms.len()) ==> ge(r, #[trigger] leaf(info, head, ms + l))
    &&& (r == start || exists|l: Seq<Mentsu>| completes(info, remain, l) && l.len() == need(ms.len()) && r == #[trigger] leaf(info, head, ms + l))
}

proof fn lemma_completes_front(info: AgariInformation, remain: Seq<int>, m: Mentsu, l: Seq<Mentsu>)
    ensures
        completes(info, remain, seq![m] + l) == (can_form(info, remain, m) && completes(info, take_mentsu(remain, m), l)),
{
    let x = seq![m] + l;
    assert(x.skip(1) =~= l);
    assert(x[0] == m);
}


/// Every split covered so far: those whose first meld is of a kind below `t`.
pub open spec fn covered_below(info: AgariInformation, head: int, s0: Seq<int>, ms0: Seq<Mentsu>, t: int, b0: (int, int, Seq<Yaku>), b: (int, int, Seq<Yaku>)) -> bool {
    &&& ge(b, b0)
    &&& forall|l: Seq<Mentsu>| completes(info, s0, l) && l.len() == need(ms0.len()) && mentsu_kind(l[0]) < t ==> ge(b, #[trigger] leaf(info, head, ms0 + l))
    &&& (b == b0 || exists|l: Seq<Mentsu>| completes(info, s0, l) && l.len() == need(ms0.len()) && b == #[trigger] leaf(info, head, ms0 + l))
}

proof fn lemma_search_step(info: AgariInformation, head: int, s0: Seq<int>, ms0: Seq<Mentsu>, t: int, b0: (int, int, Seq<Yaku>), ba: (int, int, Seq<Yaku>), bb: (int, int, Seq<Yaku>), bc: (int, int, Seq<Yaku>))
    requires
        0 <= t < 34,
        s0.len() == 34,
        ms0.len() < 4,
        covered_below(info, head, s0, ms0, t, b0, ba),
        s0[t] >= 3 ==> search_result(info, head, take_mentsu(s0, triplet_mentsu(info, t)), ms0.push(triplet_mentsu(info, t)), ba, bb),
        !(s0[t] >= 3) ==> bb == ba,
        (t < 27 && t % 9 <= 6 && s0[t] > 0 && s0[t + 1] > 0 && s0[t + 2] > 0) ==> search_result(info, head, take_mentsu(s0, run_mentsu(t)), ms0.push(run_mentsu(t)), bb, bc),
        !(t < 27 && t % 9 <= 6 && s0[t] > 0 && s0[t + 1] > 0 && s0[t + 2] > 0) ==> bc == bb,
    ensures
        covered_below(info, head, s0, ms0, t + 1, b0, bc),
{
    let m1 = triplet_mentsu(info, t);
    let m2 = run_mentsu(t);
    let n = need(ms0.len());
    assert(ms0.push(m1).len() == ms0.len() + 1);
    assert(ms0.push(m2).len() == ms0.len() + 1);
    assert forall|l: Seq<Mentsu>| completes(info, s0, l) && l.len() == n && mentsu_kind(l[0]) < t + 1 implies ge(bc, #[trigger] leaf(info, head, ms0 + l)) by {
        if mentsu_kind(l[0]) < t {
            assert(ge(ba, leaf(info, head, ms0 + l)));
        } else {
            let rest = l.skip(1);
            assert(l =~= seq![l[0]] + rest);
            lemma_completes_front(info, s0, l[0], rest);
            if l[0] == m1 && s0[t] >= 3 {
                assert(ms0.push(m1) + rest =~= ms0 + l);
                assert(ge(bb, leaf(info, head, ms0.push(m1) + rest)));
            } else {
                assert(l[0] == m2);
                assert(ms0.push(m2) + rest =~= ms0 + l);
                assert(ge(bc, leaf(info, head, ms0.push(m2) + rest)));
            }
        }
    }
    if bc != b0 && bc != ba {
        if bc == bb {
            let l2 = choose|l2: Seq<Mentsu>| completes(info, take_mentsu(s0, m1), l2) && l2.len() == need(ms0.push(m1).len()) && bb == #[trigger] leaf(info, head, ms0.push(m1) + l2);
            lemma_completes_front(info, s0, m1, l2);
            assert(ms0.push(m1) + l2 =~= ms0 + (seq![m1] + l2));
            assert(completes(info, s0, seq![m1] + l2));
            assert(bc == leaf(info, head, ms0 + (seq![m1] + l2)));
        } else {
            let l2 = choose|l2: Seq<Mentsu>| completes(info, take_mentsu(s0, m2), l2) && l2.len() == need(ms0.push(m2).len()) && bc == #[trigger] leaf(info, head, ms0.push(m2) + l2);
            lemma_completes_front(info, s0, m2, l2);
            assert(ms0.push(m2) + l2 =~= ms0 + (seq![m2] + l2));
            assert(completes(info, s0, seq![m2] + l2));
            assert(bc == leaf(info, head, ms0 + (seq![m2] + l2)));
        }
    }
}

/// Takes every meld that can come next from `remain`, recursing until four
/// melds stand, and keeps the best score of the complete splits.
fn divide_mentsu(info: &AgariInformation, remain: &mut Vec<u8>, d: &mut DividedHand, best: &mut ScoreTriple)
    requires
        counts_wf(old(remain)@),
        all_mentsu_wf(old(d).mentsu@),
        old(d).mentsu@.len() <= 96,
        triple_in_bounds(old(best).view_triple()),
    ensures
        final(remain)@ == old(remain)@,
        final(d).mentsu@ == old(d).mentsu@,
        final(d).atama == old(d).atama,
        triple_in_bounds(final(best).view_triple()),
        search_result(*info, old(d).atama.idx(), as_ints(old(remain)@), old(d).mentsu@, old(best).view_triple(), final(best).view_triple()),
    decreases need(old(d).mentsu@.len()),
{
    let ghost s0 = as_ints(remain@);
    let ghost r0 = remain@;
    let ghost ms0 = d.mentsu@;
    let ghost head = d.atama.idx();
    let ghost b0 = best.view_triple();
    if d.mentsu.len() >= 4 {
        update_score_from_dividedhand(info, d, best);
        proof {
            assert forall|l: Seq<Mentsu>| completes(*info, s0, l) && l.len() == need(ms0.len()) implies ge(best.view_triple(), #[trigger] leaf(*info, head, ms0 + l)) by {
                assert(ms0 + l =~= ms0);
            }
            if best.view_triple() != b0 {
                let l = Seq::<Mentsu>::empty();
                assert(ms0 + l =~= ms0);
                assert(completes(*info, s0, l));
            }
        }
        return;
    }
    let w = info.wining_tile.id.index();
    let mut t: usize = 0;
    while t < 34
        invariant
            t <= 34,
            remain@ == r0,
            s0 == as_ints(r0),
            counts_wf(r0),
            d.mentsu@ == ms0,
            ms0 == old(d).mentsu@,
            d.atama.idx() == head,
            ms0.len() < 4,
            all_mentsu_wf(ms0),
            w as int == info.wining_tile.id.idx(),
            triple_in_bounds(best.view_triple()),
            covered_below(*info, head, s0, ms0, t as int, b0, best.view_triple()),
        decreases 34 - t,
    {
        let ghost ba = best.view_triple();
        let ghost m1 = triplet_mentsu(*info, t as int);
        let ghost m2 = run_mentsu(t as int);
        let c = remain[t];
        let can1 = c >= 3;
        if can1 {
            let m = if t == w && !info.tsumo {
                Mentsu::Pung { t: TileId::from_index(t) }
            } else {
                Mentsu::Anko { t: TileId::from_index(t) }
            };
            assert(m == m1);
            remain.set(t, c - 3);
            d.mentsu.push(m);
            proof {
                assert(as_ints(remain@) =~= take_mentsu(s0, m1));
                assert(all_mentsu_wf(d.mentsu@));
            }
            divide_mentsu(info, remain, d, best);
            d.mentsu.pop();
            remain.set(t, c);
            proof {
                assert(remain@ =~= r0);
                assert(d.mentsu@ =~= ms0);
            }
        }
        let ghost bb = best.view_triple();
        let can2 = t < 27 && t % 9 <= 6 && remain[t] > 0 && remain[t + 1] > 0 && remain[t + 2] > 0;
        if can2 {
            let m = Mentsu::Syuntsu { min: TileId::from_index(t) };
            assert(m == m2);
            let c1 = remain[t + 1];
            let c2 = remain[t + 2];
            remain.set(t, c - 1);
            remain.set(t + 1, c1 - 1);
            remain.set(t + 2, c2 - 1);
            d.mentsu.push(m);
            proof {
                assert(as_ints(remain@) =~= take_mentsu(s0, m2));
                assert(all_mentsu_wf(d.mentsu@));
            }
            divide_mentsu(info, remain, d, best);
            d.mentsu.pop();
            remain.set(t, c);
            remain.set(t + 1, c1);
            remain.set(t + 2, c2);
            proof {
                assert(remain@ =~= r0);
                assert(d.mentsu@ =~= ms0);
            }
        }
        proof {
            lemma_search_step(*info, head, s0, ms0, t as int, b0, ba, bb, best.view_triple());
        }
        t = t + 1;
    }
    proof {
        assert forall|l: Seq<Mentsu>| completes(*info, s0, l) && l.len() == need(ms0.len()) implies ge(best.view_triple(), #[trigger] leaf(*info, head, ms0 + l)) by {
            assert(can_form(*info, s0, l[0]));
            assert(mentsu_kind(l[0]) < 34);
        }
    }
}


/// The meld of a split that a called meld stands for.
pub open spec fn meld_mentsu(m: Meld) -> Mentsu {
    match m {
        Meld::Pung { tiles } => Mentsu::Pung { t: tiles[0].id },
        Meld::Chow { tiles } => Mentsu::Chow { min: tiles[0].id },
        Meld::Ankan { tiles } => Mentsu::Ankan { t: tiles[0].id },
        Meld::Minkan { tiles } => Mentsu::Minkan { t: tiles[0].id },
        Meld::Kakan { tiles } => Mentsu::Minkan { t: tiles[0].id },
    }
}

/// The called melds as melds of a split.
pub open spec fn called_mentsu(info: AgariInformation) -> Seq<Mentsu> {
    info.hand.melds@.map_values(|m: Meld| meld_mentsu(m))
}

/// Counts of the concealed tiles and the winning tile.
pub open spec fn pure_counts(info: AgariInformation) -> Seq<int> {
    counts_of(ids(info.hand.hand@).push(info.wining_tile.id))
}

/// A split of the win: a pair of the kind at `h` as head, the called melds,
/// and concealed melds `l` that the search can form from the rest.
pub open spec fn is_division(info: AgariInformation, h: int, l: Seq<Mentsu>) -> bool {
    &&& 0 <= h < 34
    &&& pure_counts(info)[h] >= 2
    &&& l.len() == need(called_mentsu(info).len())
    &&& completes(info, remove_pair(pure_counts(info), h), l)
}

/// No split: no han, no fu, no pattern.
pub open spec fn zero_triple() -> (int, int, Seq<Yaku>) {
    (0, 0, seq![])
}

/// `st` is the highest-scoring split: it scores at least as high as every
/// split, and is one of them (or nothing, when none scores above nothing).
pub open spec fn best_division(info: AgariInformation, st: (int, int, Seq<Yaku>)) -> bool {
    &&& forall|h: int, l: Seq<Mentsu>| is_division(info, h, l) ==> ge(st, #[trigger] leaf(info, h, called_mentsu(info) + l))
    &&& (st == zero_triple() || exists|h: int, l: Seq<Mentsu>| is_division(info, h, l) && st == #[trigger] leaf(info, h, called_mentsu(info) + l))
}

/// Every called meld is well formed.
pub open spec fn melds_all_wf(info: AgariInformation) -> bool {
    forall|i: int| 0 <= i < info.hand.melds@.len() ==> meld_wf(#[trigger] info.hand.melds@[i])
}

fn called_mentsu_exec(info: &AgariInformation) -> (r: Vec<Mentsu>)
    requires
        melds_all_wf(*info),
    ensures
        r@ == called_mentsu(*info),
        all_mentsu_wf(r@),
{
    let mut r: Vec<Mentsu> = Vec::new();
    let mut i: usize = 0;
    while i < info.hand.melds.len()
        invariant
            i <= info.hand.melds@.len(),
            melds_all_wf(*info),
            r@ == called_mentsu(*info).take(i as int),
            all_mentsu_wf(r@),
        decreases info.hand.melds@.len() - i,
    {
        let m = match &info.hand.melds[i] {
            Meld::Pung { tiles } => Mentsu::Pung { t: tiles[0].id },
            Meld::Chow { tiles } => Mentsu::Chow { min: tiles[0].id },
            Meld::Ankan { tiles } => Mentsu::Ankan { t: tiles[0].id },
            Meld::Minkan { tiles } => Mentsu::Minkan { t: tiles[0].id },
            Meld::Kakan { tiles } => Mentsu::Minkan { t: tiles[0].id },
        };
        assert(meld_wf(info.hand.melds@[i as int]));
        r.push(m);
        i = i + 1;
        proof {
            assert(r@ =~= called_mentsu(*info).take(i as int));
        }
    }
    proof {
        assert(called_mentsu(*info).take(i as int) =~= called_mentsu(*info));
    }
    r
}

fn pure_tiles(info: &AgariInformation) -> (r: Vec<TileId>)
    ensures
        r@ == ids(info.hand.hand@).push(info.wining_tile.id),
{
    let mut r: Vec<TileId> = Vec::new();
    let mut i: usize = 0;
    while i < info.hand.hand.len()
        invariant
            i <= info.hand.hand@.len(),
            r@ == ids(info.hand.hand@.take(i as int)),
        decreases info.hand.hand@.len() - i,
    {
        r.push(info.hand.hand[i].id);
        i = i + 1;
        proof {
            assert(r@ =~= ids(info.hand.hand@.take(i as int)));
        }
    }
    proof {
        assert(info.hand.hand@.take(i as int) =~= info.hand.hand@);
    }
    r.push(info.wining_tile.id);
    r
}

/// Every split tried by heads below `h`.
pub open spec fn heads_below(info: AgariInformation, hmax: int, b: (int, int, Seq<Yaku>)) -> bool {
    &&& forall|h: int, l: Seq<Mentsu>| is_division(info, h, l) && h < hmax ==> ge(b, #[trigger] leaf(info, h, called_mentsu(info) + l))
    &&& (b == zero_triple() || exists|h: int, l: Seq<Mentsu>| is_division(info, h, l) && b == #[trigger] leaf(info, h, called_mentsu(info) + l))
}

proof fn lemma_head_step(info: AgariInformation, h: int, ba: (int, int, Seq<Yaku>), bb: (int, int, Seq<Yaku>))
    requires
        0 <= h < 34,
        heads_below(info, h, ba),
        pure_counts(info)[h] >= 2 ==> search_result(info, h, remove_pair(pure_counts(info), h), called_mentsu(info), ba, bb),
        !(pure_counts(info)[h] >= 2) ==> bb == ba,
    ensures
        heads_below(info, h + 1, bb),
{
    let cm = called_mentsu(info);
    assert forall|h2: int, l: Seq<Mentsu>| is_division(info, h2, l) && h2 < h + 1 implies ge(bb, #[trigger] leaf(info, h2, cm + l)) by {
        if h2 < h {
            assert(ge(ba, leaf(info, h2, cm + l)));
        }
    }
    if bb != ba && bb != zero_triple() {
        let l = choose|l: Seq<Mentsu>| completes(info, remove_pair(pure_counts(info), h), l) && l.len() == need(cm.len()) && bb == #[trigger] leaf(info, h, cm + l);
        assert(is_division(info, h, l));
    }
}

/// The highest-scoring split of the win.
pub fn calculate_dividedhand_score(info: &AgariInformation) -> (r: ScoreTriple)
    requires
        melds_all_wf(*info),
        info.hand.melds@.len() <= 90,
        info.hand.hand@.len() < MAX_TILES,
    ensures
        best_division(*info, r.view_triple()),
        triple_in_bounds(r.view_triple()),
{
    let pure = pure_tiles(info);
    let mut best = ScoreTriple { han: 0, fu: 0, yaku: Vec::new() };
    proof {
        assert(best.view_triple() =~= zero_triple());
    }
    let mut h: usize = 0;
    while h < 34
        invariant
            h <= 34,
            melds_all_wf(*info),
            info.hand.melds@.len() <= 90,
            pure@ == ids(info.hand.hand@).push(info.wining_tile.id),
            pure@.len() <= MAX_TILES,
            triple_in_bounds(best.view_triple()),
            heads_below(*info, h as int, best.view_triple()),
        decreases 34 - h,
    {
        let ghost ba = best.view_triple();
        let mut remain = calculate_tile_counts(pure.as_slice());
        if remain[h] >= 2 {
            let v = remain[h];
            remain.set(h, v - 2);
            proof {
                assert(as_ints(remain@) =~= remove_pair(pure_counts(*info), h as int));
            }
            let mut d = DividedHand { atama: TileId::from_index(h), mentsu: called_mentsu_exec(info) };
            divide_mentsu(info, &mut remain, &mut d, &mut best);
        }
        proof {
            lemma_head_step(*info, h as int, ba, best.view_triple());
        }
        h = h + 1;
    }
    best
}


/// The fu of a split is rounded up to a multiple of 10; pinfu gives 20
/// self-drawn and 30 claimed, and only a self-drawn pinfu stays at 20.
pub proof fn lemma_division_fu_rounded(info: AgariInformation, head: int, ms: Seq<Mentsu>)
    ensures
        division_fu(info, head, ms) % 10 == 0,
        division_fu(info, head, ms) >= 20,
        pinfu_spec(info, head, ms) ==> division_fu(info, head, ms) == if info.tsumo { 20int } else { 30int },
        division_fu(info, head, ms) == 20 <==> pinfu_spec(info, head, ms) && info.tsumo,
        !pinfu_spec(info, head, ms) ==> division_fu(info, head, ms) >= raw_fu(info, head, ms),
{
    if !pinfu_spec(info, head, ms) {
        let f = raw_fu(info, head, ms);
        lemma_melds_fu_nonneg(ms);
        crate::score::lemma_roundup(if f == 20 { 30 } else { f }, 10);
    }
}

proof fn lemma_melds_fu_nonneg(ms: Seq<Mentsu>)
    ensures
        melds_fu(ms) >= 0,
    decreases ms.len(),
{
    if ms.len() > 0 {
        lemma_melds_fu_nonneg(ms.drop_last());
    }
}


/// No split of the win scores above the chosen one: the chosen han and fu are
/// at least those of any split.
pub proof fn lemma_best_division_dominates(info: AgariInformation, st: (int, int, Seq<Yaku>), h: int, l: Seq<Mentsu>)
    requires
        best_division(info, st),
        is_division(info, h, l),
    ensures
        ge(st, leaf(info, h, called_mentsu(info) + l)),
{
}


/// The patterns of a split are listed once each, and all depend on the split.
pub proof fn lemma_division_yaku_distinct(info: AgariInformation, head: int, ms: Seq<Mentsu>)
    ensures
        division_yaku_han(info, head, ms).1.no_duplicates(),
        forall|i: int| 0 <= i < division_yaku_han(info, head, ms).1.len() ==> crate::score::division_pattern(#[trigger] division_yaku_han(info, head, ms).1[i]),
{
    let a = division_rules_a(info, head, ms);
    let b = division_rules_b(info, head, ms);
    lemma_apply_rules_concat((0, seq![]), a, b);
    let yy = seq![Yaku::Pinfu, Yaku::Ryanpeko, Yaku::Ipeko, Yaku::Ikkitsukan, Yaku::Sansyokudoujyun,
        Yaku::Sansyokudoukoku, Yaku::Jyunchanta, Yaku::Chanta, Yaku::Toitoiho, Yaku::Sananko];
    assert(crate::score::rule_yaku(a + b) =~= yy);
    crate::score::lemma_apply_rules_distinct((0, seq![]), a + b);
    let r = division_yaku_han(info, head, ms).1;
    assert forall|i: int| 0 <= i < r.len() implies crate::score::division_pattern(#[trigger] r[i]) by {
        assert(yy.contains(r[i]));
    }
}


/// The best split lists each pattern once, all of them split patterns.
pub proof fn lemma_best_division_distinct(info: AgariInformation, st: (int, int, Seq<Yaku>))
    requires
        best_division(info, st),
    ensures
        st.2.no_duplicates(),
        forall|i: int| 0 <= i < st.2.len() ==> crate::score::division_pattern(#[trigger] st.2[i]),
{
    if st != zero_triple() {
        let (h, l) = choose|h: int, l: Seq<Mentsu>| is_division(info, h, l) && st == #[trigger] leaf(info, h, called_mentsu(info) + l);
        reveal(leaf);
        lemma_division_yaku_distinct(info, h, called_mentsu(info) + l);
    } else {
        assert(st.2 =~= Seq::<Yaku>::empty());
    }
}

} // verus!
