//! Winning patterns read from the whole tile multiset, and dora.
use vstd::prelude::*;
use crate::types::{
    as_ints, honor_idx, kan_count, meld_tiles, simple_idx, terminal_idx, yaochu_at, yaochu_idx,
    Meld, Tile, TileId, Wind, NUM_KINDS,
};
use crate::shanten::{counts_wf, num_at_least, num_exactly};
use crate::score::{AgariInformation, ScoreRuleConfig, Yaku, MAX_DORA, MAX_INDICATORS};

verus! {

/// Some kind in `[lo, hi)` is held.
pub open spec fn any_held_in(c: Seq<int>, lo: int, hi: int) -> bool {
    exists|k: int| lo <= k < hi && #[trigger] c[k] > 0
}

/// Position of a wind's honor kind.
pub open spec fn wind_idx(w: Wind) -> int {
    match w {
        Wind::Ton => 27,
        Wind::Nan => 28,
        Wind::Sha => 29,
        Wind::Pee => 30,
    }
}

/// Fully concealed hand.
pub open spec fn menzen(info: AgariInformation) -> bool {
    info.hand.spec_is_menzen()
}

/// All simples.
#[verifier::opaque]
pub open spec fn tanyao_spec(info: AgariInformation, cfg: ScoreRuleConfig, c: Seq<int>) -> bool {
    (cfg.kuitan || menzen(info)) && forall|k: int| 0 <= k < 34 && #[trigger] c[k] > 0 ==> !yaochu_idx(k)
}

/// All terminals and honors, both present.
#[verifier::opaque]
pub open spec fn honrouto_spec(c: Seq<int>) -> bool {
    &&& forall|k: int| 0 <= k < 34 && #[trigger] c[k] > 0 ==> yaochu_idx(k)
    &&& exists|k: int| 0 <= k < 34 && #[trigger] c[k] > 0 && terminal_idx(k)
    &&& any_held_in(c, 27, 34)
}

/// Suited tiles of at most one suit.
#[verifier::opaque]
pub open spec fn one_suit(c: Seq<int>) -> bool {
    let m = any_held_in(c, 0, 9);
    let p = any_held_in(c, 9, 18);
    let s = any_held_in(c, 18, 27);
    !(m && p) && !(m && s) && !(p && s)
}

/// Half flush: one suit and honors.
#[verifier::opaque]
pub open spec fn honitsu_spec(c: Seq<int>) -> bool {
    any_held_in(c, 27, 34) && one_suit(c)
}

/// Full flush: one suit, no honors.
#[verifier::opaque]
pub open spec fn chinitsu_spec(c: Seq<int>) -> bool {
    !any_held_in(c, 27, 34) && one_suit(c)
}

/// Little three dragons: a dragon pair and two dragon triplets.
#[verifier::opaque]
pub open spec fn syosangen_spec(c: Seq<int>) -> bool {
    (exists|k: int| 31 <= k < 34 && #[trigger] c[k] == 2) && num_at_least(c, 31, 34, 3) == 2
}

/// Three quads among three melds.
#[verifier::opaque]
pub open spec fn sankantsu_spec(info: AgariInformation) -> bool {
    info.hand.melds@.len() == 3 && kan_count(info.hand.melds@) == 3
}

/// Four quads among four melds.
#[verifier::opaque]
pub open spec fn sukantsu_spec(info: AgariInformation) -> bool {
    info.hand.melds@.len() == 4 && kan_count(info.hand.melds@) == 4
}

/// Counts without one copy of the winning tile.
pub open spec fn without_win(info: AgariInformation, c: Seq<int>) -> Seq<int> {
    let w = info.wining_tile.id.idx();
    c.update(w, c[w] - 1)
}

/// Thirteen orphans on the 13-sided wait: before the winning tile, one of
/// each terminal and honor.
#[verifier::opaque]
pub open spec fn kokushi13_spec(info: AgariInformation, c: Seq<int>) -> bool {
    &&& info.hand.melds@.len() == 0
    &&& yaochu_idx(info.wining_tile.id.idx())
    &&& forall|k: int| 0 <= k < 34 && yaochu_idx(k) ==> #[trigger] without_win(info, c)[k] == 1
}

/// Nine gates in the suit starting at `b`: three 1s, three 9s, each of 2 to 8.
pub open spec fn churen_suit(c: Seq<int>, b: int) -> bool {
    c[b] >= 3 && c[b + 8] >= 3 && forall|r: int| 1 <= r <= 7 ==> #[trigger] c[b + r] >= 1
}

/// Nine gates in the first suit that holds a 1.
#[verifier::opaque]
pub open spec fn churen_common(c: Seq<int>) -> bool {
    if c[0] > 0 {
        churen_suit(c, 0)
    } else if c[9] > 0 {
        churen_suit(c, 9)
    } else if c[18] > 0 {
        churen_suit(c, 18)
    } else {
        false
    }
}

/// Nine gates, unless won on a simple that makes the nine-sided double.
#[verifier::opaque]
pub open spec fn churen_spec(info: AgariInformation, c: Seq<int>) -> bool {
    let w = info.wining_tile.id.idx();
    &&& info.hand.melds@.len() == 0
    &&& !(simple_idx(w) && c[w] == 2)
    &&& churen_common(c)
}

/// Nine gates on the nine-sided wait: the shape before the winning tile, won
/// on a kind held at most twice (a fourth 1 or 9 leaves the plain form).
#[verifier::opaque]
pub open spec fn churen9_spec(info: AgariInformation, c: Seq<int>) -> bool {
    &&& info.hand.melds@.len() == 0
    &&& c[info.wining_tile.id.idx()] <= 2
    &&& churen_common(without_win(info, c))
}

/// Four concealed triplets, self-drawn, not on the pair wait.
#[verifier::opaque]
pub open spec fn suanko_spec(info: AgariInformation, c: Seq<int>) -> bool {
    &&& menzen(info)
    &&& info.tsumo
    &&& c[info.wining_tile.id.idx()] != 2
    &&& num_exactly(c, 0, 34, 3) == 4
    &&& num_exactly(c, 0, 34, 2) == 1
}

/// Four concealed triplets on the pair wait.
#[verifier::opaque]
pub open spec fn suankotanki_spec(info: AgariInformation, c: Seq<int>) -> bool {
    &&& menzen(info)
    &&& forall|k: int| 0 <= k < 34 && #[trigger] c[k] == 2 ==> k == info.wining_tile.id.idx()
    &&& num_exactly(c, 0, 34, 3) == 4
}

/// Big four winds.
#[verifier::opaque]
pub open spec fn daisushi_spec(c: Seq<int>) -> bool {
    c[27] >= 3 && c[28] >= 3 && c[29] >= 3 && c[30] >= 3
}

/// Little four winds: three wind triplets and a wind pair.
#[verifier::opaque]
pub open spec fn syosushi_spec(c: Seq<int>) -> bool {
    num_exactly(c, 27, 31, 3) == 3 && num_exactly(c, 27, 31, 2) == 1
}

/// Big three dragons.
#[verifier::opaque]
pub open spec fn daisangen_spec(c: Seq<int>) -> bool {
    c[31] >= 3 && c[32] >= 3 && c[33] >= 3
}

/// All honors.
#[verifier::opaque]
pub open spec fn tsuiso_spec(c: Seq<int>) -> bool {
    forall|k: int| 0 <= k < 34 && #[trigger] c[k] > 0 ==> honor_idx(k)
}

/// All terminals.
#[verifier::opaque]
pub open spec fn chinroto_spec(c: Seq<int>) -> bool {
    forall|k: int| 0 <= k < 34 && #[trigger] c[k] > 0 ==> terminal_idx(k)
}

/// Green kinds: 2, 3, 4, 6, 8 of bamboo and the green dragon.
pub open spec fn green_idx(k: int) -> bool {
    k == 19 || k == 20 || k == 21 || k == 23 || k == 25 || k == 32
}

/// All green.
#[verifier::opaque]
pub open spec fn ryuiso_spec(c: Seq<int>) -> bool {
    forall|k: int| 0 <= k < 34 && #[trigger] c[k] > 0 ==> green_idx(k)
}

fn any_held(c: &Vec<u8>, lo: usize, hi: usize) -> (r: bool)
    requires
        counts_wf(c@),
        lo <= hi <= 34,
    ensures
        r == any_held_in(as_ints(c@), lo as int, hi as int),
{
    let ghost s = as_ints(c@);
    let mut k = lo;
    while k < hi
        invariant
            lo <= k <= hi,
            hi <= 34,
            counts_wf(c@),
            s == as_ints(c@),
            forall|x: int| lo <= x < k ==> !(s[x] > 0),
        decreases hi - k,
    {
        if c[k] > 0 {
            assert(s[k as int] > 0);
            return true;
        }
        k = k + 1;
    }
    false
}

/// A kind class: 0 not terminal or honor, 1 honor, 2 terminal, 3 green,
/// 4 terminal or honor.
pub open spec fn kind_class(which: int, k: int) -> bool {
    if which == 4 {
        yaochu_idx(k)
    } else if which == 0 {
        !yaochu_idx(k)
    } else if which == 1 {
        honor_idx(k)
    } else if which == 2 {
        terminal_idx(k)
    } else {
        green_idx(k)
    }
}

fn in_class(which: u8, k: usize) -> (r: bool)
    requires
        k < 34,
    ensures
        r == kind_class(which as int, k as int),
{
    let t = TileId::from_index(k);
    if which == 4 {
        t.is_yaochu()
    } else if which == 0 {
        !t.is_yaochu()
    } else if which == 1 {
        t.is_jihai()
    } else if which == 2 {
        t.is_routou()
    } else {
        k == 19 || k == 20 || k == 21 || k == 23 || k == 25 || k == 32
    }
}

/// Every held kind is of the class.
fn all_held_in_class(c: &Vec<u8>, which: u8) -> (r: bool)
    requires
        counts_wf(c@),
    ensures
        r == forall|k: int| 0 <= k < 34 && #[trigger] as_ints(c@)[k] > 0 ==> kind_class(which as int, k),
{
    let ghost s = as_ints(c@);
    let mut k: usize = 0;
    while k < NUM_KINDS
        invariant
            k <= 34,
            counts_wf(c@),
            s == as_ints(c@),
            forall|x: int| 0 <= x < k && #[trigger] s[x] > 0 ==> kind_class(which as int, x),
        decreases 34 - k,
    {
        if c[k] > 0 && !in_class(which, k) {
            assert(s[k as int] > 0);
            return false;
        }
        k = k + 1;
    }
    true
}

/// All simples (open hands only when the rules allow it).
pub fn is_tanyao(info: &AgariInformation, cfg: &ScoreRuleConfig, c: &Vec<u8>) -> (r: bool)
    requires
        counts_wf(c@),
    ensures
        r == tanyao_spec(*info, *cfg, as_ints(c@)),
{
    proof {
        reveal(tanyao_spec);
    }
    if !cfg.kuitan && !info.hand.is_menzen() {
        return false;
    }
    all_held_in_class(c, 0)
}

/// Only terminals and honors, both present.
pub fn is_honrouto(c: &Vec<u8>) -> (r: bool)
    requires
        counts_wf(c@),
    ensures
        r == honrouto_spec(as_ints(c@)),
{
    proof {
        reveal(honrouto_spec);
    }
    let ghost s = as_ints(c@);
    let simples = !all_held_in_class(c, 4);
    let honors = any_held(c, 27, 34);
    let terminals = c[0] > 0 || c[8] > 0 || c[9] > 0 || c[17] > 0 || c[18] > 0 || c[26] > 0;
    proof {
        if terminals {
            if c@[0] > 0 { assert(s[0] > 0 && terminal_idx(0)); }
            else if c@[8] > 0 { assert(s[8] > 0 && terminal_idx(8)); }
            else if c@[9] > 0 { assert(s[9] > 0 && terminal_idx(9)); }
            else if c@[17] > 0 { assert(s[17] > 0 && terminal_idx(17)); }
            else if c@[18] > 0 { assert(s[18] > 0 && terminal_idx(18)); }
            else { assert(s[26] > 0 && terminal_idx(26)); }
        } else {
            assert forall|k: int| 0 <= k < 34 && #[trigger] s[k] > 0 implies !terminal_idx(k) by {
                if terminal_idx(k) {
                    assert(k == 0 || k == 8 || k == 9 || k == 17 || k == 18 || k == 26);
                }
            }
        }
        if !simples {
            assert(forall|k: int| 0 <= k < 34 && #[trigger] s[k] > 0 ==> yaochu_idx(k));
        }
    }
    !simples && terminals && honors
}

fn one_suit_exec(c: &Vec<u8>) -> (r: bool)
    requires
        counts_wf(c@),
    ensures
        r == one_suit(as_ints(c@)),
{
    proof {
        reveal(one_suit);
    }
    let m = any_held(c, 0, 9);
    let p = any_held(c, 9, 18);
    let s = any_held(c, 18, 27);
    !(m && p) && !(m && s) && !(p && s)
}

/// One suit and honors.
pub fn is_honitsu(c: &Vec<u8>) -> (r: bool)
    requires
        counts_wf(c@),
    ensures
        r == honitsu_spec(as_ints(c@)),
{
    proof {
        reveal(honitsu_spec);
    }
    any_held(c, 27, 34) && one_suit_exec(c)
}

/// One suit, no honors.
pub fn is_chinitsu(c: &Vec<u8>) -> (r: bool)
    requires
        counts_wf(c@),
    ensures
        r == chinitsu_spec(as_ints(c@)),
{
    proof {
        reveal(chinitsu_spec);
    }
    !any_held(c, 27, 34) && one_suit_exec(c)
}

/// A dragon pair and two dragon triplets.
pub fn is_syosangen(c: &Vec<u8>) -> (r: bool)
    requires
        counts_wf(c@),
    ensures
        r == syosangen_spec(as_ints(c@)),
{
    proof {
        reveal(syosangen_spec);
    }
    let ghost s = as_ints(c@);
    let head = c[31] == 2 || c[32] == 2 || c[33] == 2;
    let mut n: i32 = 0;
    let mut k: usize = 31;
    while k < NUM_KINDS
        invariant
            31 <= k <= 34,
            counts_wf(c@),
            s == as_ints(c@),
            n as int == num_at_least(s, 31, k as int, 3),
            0 <= n <= k - 31,
        decreases 34 - k,
    {
        if c[k] >= 3 {
            n = n + 1;
        }
        k = k + 1;
    }
    proof {
        if head {
            if c@[31] == 2 { assert(s[31] == 2); }
            else if c@[32] == 2 { assert(s[32] == 2); }
            else { assert(s[33] == 2); }
        } else {
            assert forall|k: int| 31 <= k < 34 implies !(#[trigger] s[k] == 2) by {
                assert(k == 31 || k == 32 || k == 33);
            }
        }
    }
    head && n == 2
}

/// Three quads among three melds.
pub fn is_sankantsu(info: &AgariInformation) -> (r: bool)
    ensures
        r == sankantsu_spec(*info),
{
    proof {
        reveal(sankantsu_spec);
    }
    if info.hand.melds.len() != 3 {
        return false;
    }
    info.hand.num_kan() == 3
}

/// Four quads among four melds.
pub fn is_sukantsu(info: &AgariInformation) -> (r: bool)
    ensures
        r == sukantsu_spec(*info),
{
    proof {
        reveal(sukantsu_spec);
    }
    if info.hand.melds.len() != 4 {
        return false;
    }
    info.hand.num_kan() == 4
}

/// Thirteen orphans waiting on all thirteen kinds.
pub fn is_kokushimusou13(info: &AgariInformation, c: &Vec<u8>) -> (r: bool)
    requires
        counts_wf(c@),
    ensures
        r == kokushi13_spec(*info, as_ints(c@)),
{
    proof {
        reveal(kokushi13_spec);
    }
    if info.hand.melds.len() > 0 {
        return false;
    }
    if !info.wining_tile.id.is_yaochu() {
        return false;
    }
    let w = info.wining_tile.id.index();
    let ghost rem = without_win(*info, as_ints(c@));
    let mut k: usize = 0;
    while k < NUM_KINDS
        invariant
            k <= 34,
            counts_wf(c@),
            w < 34,
            w as int == info.wining_tile.id.idx(),
            rem == without_win(*info, as_ints(c@)),
            forall|x: int| 0 <= x < k && yaochu_idx(x) ==> #[trigger] rem[x] == 1,
        decreases 34 - k,
    {
        if yaochu_at(k) {
            let v: i32 = if k == w { c[k] as i32 - 1 } else { c[k] as i32 };
            assert(v as int == rem[k as int]);
            if v != 1 {
                assert(yaochu_idx(k as int) && without_win(*info, as_ints(c@))[k as int] != 1);
                reveal(kokushi13_spec);
                assert(!kokushi13_spec(*info, as_ints(c@)));
                return false;
            }
        }
        k = k + 1;
    }
    true
}

fn is_churen_suit(c: &Vec<u8>, b: usize) -> (r: bool)
    requires
        counts_wf(c@),
        b == 0 || b == 9 || b == 18,
    ensures
        r == churen_suit(as_ints(c@), b as int),
{
    let ghost s = as_ints(c@);
    if c[b] < 3 || c[b + 8] < 3 {
        return false;
    }
    let mut r: usize = 1;
    while r <= 7
        invariant
            1 <= r <= 8,
            b == 0 || b == 9 || b == 18,
            counts_wf(c@),
            s == as_ints(c@),
            forall|x: int| 1 <= x < r ==> #[trigger] s[b + x] >= 1,
        decreases 8 - r,
    {
        if c[b + r] == 0 {
            assert(s[b + r as int] < 1);
            return false;
        }
        r = r + 1;
    }
    true
}

fn is_churenpouton_common(c: &Vec<u8>) -> (r: bool)
    requires
        counts_wf(c@),
    ensures
        r == churen_common(as_ints(c@)),
{
    proof {
        reveal(churen_common);
    }
    if c[0] > 0 {
        is_churen_suit(c, 0)
    } else if c[9] > 0 {
        is_churen_suit(c, 9)
    } else if c[18] > 0 {
        is_churen_suit(c, 18)
    } else {
        false
    }
}

/// Nine gates, unless won on a simple that makes the nine-sided double.
pub fn is_churenpouton(info: &AgariInformation, c: &Vec<u8>) -> (r: bool)
    requires
        counts_wf(c@),
    ensures
        r == churen_spec(*info, as_ints(c@)),
{
    proof {
        reveal(churen_spec);
    }
    if info.hand.melds.len() > 0 {
        return false;
    }
    let w = info.wining_tile.id.index();
    if info.wining_tile.id.is_chunchan() && c[w] == 2 {
        return false;
    }
    is_churenpouton_common(c)
}

/// Nine gates on the nine-sided wait.
pub fn is_churenpouton9(info: &AgariInformation, c: &mut Vec<u8>) -> (r: bool)
    requires
        counts_wf(old(c)@),
        old(c)@[info.wining_tile.id.idx()] > 0,
    ensures
        final(c)@ == old(c)@,
        r == churen9_spec(*info, as_ints(old(c)@)),
{
    proof {
        reveal(churen9_spec);
    }
    if info.hand.melds.len() > 0 {
        return false;
    }
    let ghost orig = c@;
    let w = info.wining_tile.id.index();
    let v = c[w];
    if v > 2 {
        return false;
    }
    c.set(w, v - 1);
    proof {
        assert(as_ints(c@) =~= without_win(*info, as_ints(orig)));
    }
    let r = is_churenpouton_common(c);
    c.set(w, v);
    proof {
        assert(c@ =~= orig);
    }
    r
}

fn count_exactly(c: &Vec<u8>, lo: usize, hi: usize, n: u8) -> (r: i32)
    requires
        counts_wf(c@),
        lo <= hi <= 34,
    ensures
        r as int == num_exactly(as_ints(c@), lo as int, hi as int, n as int),
        0 <= r <= 34,
{
    let mut cnt: i32 = 0;
    let mut k = lo;
    while k < hi
        invariant
            lo <= k <= hi,
            hi <= 34,
            counts_wf(c@),
            cnt as int == num_exactly(as_ints(c@), lo as int, k as int, n as int),
            0 <= cnt <= k - lo,
        decreases hi - k,
    {
        if c[k] == n {
            cnt = cnt + 1;
        }
        k = k + 1;
    }
    cnt
}

/// Four concealed triplets, self-drawn, not on the pair wait.
pub fn is_suanko(info: &AgariInformation, c: &Vec<u8>) -> (r: bool)
    requires
        counts_wf(c@),
    ensures
        r == suanko_spec(*info, as_ints(c@)),
{
    proof {
        reveal(suanko_spec);
    }
    if !info.hand.is_menzen() || !info.tsumo {
        return false;
    }
    if c[info.wining_tile.id.index()] == 2 {
        return false;
    }
    count_exactly(c, 0, 34, 3) == 4 && count_exactly(c, 0, 34, 2) == 1
}

/// Four concealed triplets on the pair wait.
pub fn is_suankotanki(info: &AgariInformation, c: &Vec<u8>) -> (r: bool)
    requires
        counts_wf(c@),
    ensures
        r == suankotanki_spec(*info, as_ints(c@)),
{
    proof {
        reveal(suankotanki_spec);
    }
    let ghost s = as_ints(c@);
    if !info.hand.is_menzen() {
        return false;
    }
    let w = info.wining_tile.id.index();
    let mut k: usize = 0;
    while k < NUM_KINDS
        invariant
            k <= 34,
            counts_wf(c@),
            s == as_ints(c@),
            w as int == info.wining_tile.id.idx(),
            forall|x: int| 0 <= x < k && #[trigger] s[x] == 2 ==> x == w as int,
        decreases 34 - k,
    {
        if c[k] == 2 && k != w {
            assert(s[k as int] == 2);
            reveal(suankotanki_spec);
            assert(!suankotanki_spec(*info, as_ints(c@)));
            return false;
        }
        k = k + 1;
    }
    count_exactly(c, 0, 34, 3) == 4
}

/// Big four winds.
pub fn is_daisushi(c: &Vec<u8>) -> (r: bool)
    requires
        counts_wf(c@),
    ensures
        r == daisushi_spec(as_ints(c@)),
{
    proof {
        reveal(daisushi_spec);
    }
    c[27] >= 3 && c[28] >= 3 && c[29] >= 3 && c[30] >= 3
}

/// Little four winds.
pub fn is_syosushi(c: &Vec<u8>) -> (r: bool)
    requires
        counts_wf(c@),
    ensures
        r == syosushi_spec(as_ints(c@)),
{
    proof {
        reveal(syosushi_spec);
    }
    count_exactly(c, 27, 31, 3) == 3 && count_exactly(c, 27, 31, 2) == 1
}

/// Big three dragons.
pub fn is_daisangen(c: &Vec<u8>) -> (r: bool)
    requires
        counts_wf(c@),
    ensures
        r == daisangen_spec(as_ints(c@)),
{
    proof {
        reveal(daisangen_spec);
    }
    c[31] >= 3 && c[32] >= 3 && c[33] >= 3
}

/// All honors.
pub fn is_tsuiso(c: &Vec<u8>) -> (r: bool)
    requires
        counts_wf(c@),
    ensures
        r == tsuiso_spec(as_ints(c@)),
{
    proof {
        reveal(tsuiso_spec);
    }
    all_held_in_class(c, 1)
}

/// All terminals.
pub fn is_chinroto(c: &Vec<u8>) -> (r: bool)
    requires
        counts_wf(c@),
    ensures
        r == chinroto_spec(as_ints(c@)),
{
    proof {
        reveal(chinroto_spec);
    }
    all_held_in_class(c, 2)
}

/// All green.
pub fn is_ryuiso(c: &Vec<u8>) -> (r: bool)
    requires
        counts_wf(c@),
    ensures
        r == ryuiso_spec(as_ints(c@)),
{
    proof {
        reveal(ryuiso_spec);
    }
    all_held_in_class(c, 3)
}


/// Position of the kind that an indicator at position `i` makes dora: the
/// next rank of its suit (9 wraps to 1), the next wind, the next dragon.
pub open spec fn dora_next(i: int) -> int {
    if i < 27 {
        if i % 9 == 8 { i - 8 } else { i + 1 }
    } else if i < 31 {
        if i == 30 { 27 } else { i + 1 }
    } else {
        if i == 33 { 31 } else { i + 1 }
    }
}

/// Number of indicators in `ds` that make the kind at `k` dora.
pub open spec fn indicator_hits(ds: Seq<Tile>, k: int) -> int
    decreases ds.len(),
{
    if ds.len() == 0 {
        0
    } else {
        indicator_hits(ds.drop_last(), k) + if dora_next(ds.last().id.idx()) == k { 1int } else { 0int }
    }
}

/// Dora that one tile carries: one if red, one per visible or hidden
/// indicator pointing at its kind.
pub open spec fn tile_dora(info: AgariInformation, t: Tile) -> int {
    (if t.aka { 1int } else { 0int }) + indicator_hits(info.dora.omote@, t.id.idx())
        + indicator_hits(info.dora.ura@, t.id.idx())
}

/// Dora carried by a tile sequence.
pub open spec fn tiles_dora(info: AgariInformation, ts: Seq<Tile>) -> int
    decreases ts.len(),
{
    if ts.len() == 0 {
        0
    } else {
        tiles_dora(info, ts.drop_last()) + tile_dora(info, ts.last())
    }
}

/// Tiles of a meld sequence, meld after meld.
pub open spec fn melds_tiles(ms: Seq<Meld>) -> Seq<Tile>
    decreases ms.len(),
{
    if ms.len() == 0 {
        seq![]
    } else {
        melds_tiles(ms.drop_last()) + meld_tiles(ms.last())
    }
}

/// Every tile of the win: the winning tile, the concealed tiles, the melds.
pub open spec fn all_tiles(info: AgariInformation) -> Seq<Tile> {
    seq![info.wining_tile] + info.hand.hand@ + melds_tiles(info.hand.melds@)
}

/// Number of dora in the win.
pub open spec fn num_dora(info: AgariInformation) -> int {
    tiles_dora(info, all_tiles(info))
}

fn dora_next_exec(i: usize) -> (r: usize)
    requires
        i < 34,
    ensures
        r as int == dora_next(i as int),
        r < 34,
{
    if i < 27 {
        if i % 9 == 8 { i - 8 } else { i + 1 }
    } else if i < 31 {
        if i == 30 { 27 } else { i + 1 }
    } else {
        if i == 33 { 31 } else { i + 1 }
    }
}

fn count_hits(ds: &Vec<Tile>, k: usize) -> (r: i32)
    requires
        ds@.len() <= MAX_INDICATORS,
    ensures
        r as int == indicator_hits(ds@, k as int),
        0 <= r <= ds@.len(),
{
    let mut n: i32 = 0;
    let mut i: usize = 0;
    while i < ds.len()
        invariant
            i <= ds@.len(),
            ds@.len() <= MAX_INDICATORS,
            n as int == indicator_hits(ds@.take(i as int), k as int),
            0 <= n <= i,
        decreases ds@.len() - i,
    {
        proof {
            assert(ds@.take(i as int + 1).drop_last() =~= ds@.take(i as int));
        }
        if dora_next_exec(ds[i].id.index()) == k {
            n = n + 1;
        }
        i = i + 1;
    }
    proof {
        assert(ds@.take(i as int) =~= ds@);
    }
    n
}

/// Every tile of the win, in the order of `all_tiles`.
fn collect_all_tiles(info: &AgariInformation) -> (r: Vec<Tile>)
    ensures
        r@ == all_tiles(*info),
{
    let mut r: Vec<Tile> = Vec::new();
    r.push(info.wining_tile);
    let mut i: usize = 0;
    while i < info.hand.hand.len()
        invariant
            i <= info.hand.hand@.len(),
            r@ == seq![info.wining_tile] + info.hand.hand@.take(i as int),
        decreases info.hand.hand@.len() - i,
    {
        r.push(info.hand.hand[i]);
        i = i + 1;
        proof {
            assert(r@ =~= seq![info.wining_tile] + info.hand.hand@.take(i as int));
        }
    }
    proof {
        assert(info.hand.hand@.take(i as int) =~= info.hand.hand@);
    }
    let ghost prefix = r@;
    let ghost ms = info.hand.melds@;
    let mut j: usize = 0;
    while j < info.hand.melds.len()
        invariant
            j <= ms.len(),
            ms == info.hand.melds@,
            r@ == prefix + melds_tiles(ms.take(j as int)),
        decreases ms.len() - j,
    {
        let ghost before = r@;
        let m = info.hand.melds[j];
        proof {
            assert(ms.take(j as int + 1).drop_last() =~= ms.take(j as int));
            assert(ms.take(j as int + 1).last() == m);
            assert(melds_tiles(ms.take(j as int + 1)) == melds_tiles(ms.take(j as int)) + meld_tiles(m));
        }
        match m {
            Meld::Pung { tiles } | Meld::Chow { tiles } => {
                r.push(tiles[0]);
                r.push(tiles[1]);
                r.push(tiles[2]);
                proof {
                    assert(r@ =~= before + tiles@);
                }
            },
            Meld::Ankan { tiles } | Meld::Minkan { tiles } | Meld::Kakan { tiles } => {
                r.push(tiles[0]);
                r.push(tiles[1]);
                r.push(tiles[2]);
                r.push(tiles[3]);
                proof {
                    assert(r@ =~= before + tiles@);
                }
            },
        }
        proof {
            assert(r@ =~= prefix + melds_tiles(ms.take(j as int + 1)));
        }
        j = j + 1;
    }
    proof {
        assert(ms.take(j as int) =~= ms);
    }
    r
}

/// Largest number of tiles a scored win may hold.
pub const MAX_WIN_TILES: usize = 255;

/// Number of dora in the win.
pub fn count_num_doras(info: &AgariInformation) -> (r: i32)
    requires
        info.dora.omote@.len() + info.dora.ura@.len() <= MAX_INDICATORS,
        all_tiles(*info).len() <= MAX_WIN_TILES,
    ensures
        r as int == num_dora(*info),
        0 <= r <= MAX_DORA,
{
    let all = collect_all_tiles(info);
    let mut n: i32 = 0;
    let mut i: usize = 0;
    while i < all.len()
        invariant
            i <= all@.len(),
            all@ == all_tiles(*info),
            all@.len() <= MAX_WIN_TILES,
            info.dora.omote@.len() + info.dora.ura@.len() <= MAX_INDICATORS,
            n as int == tiles_dora(*info, all@.take(i as int)),
            0 <= n <= 1901 * i,
        decreases all@.len() - i,
    {
        proof {
            assert(all@.take(i as int + 1).drop_last() =~= all@.take(i as int));
        }
        let t = all[i];
        let k = t.id.index();
        let mut d: i32 = if t.aka { 1 } else { 0 };
        d = d + count_hits(&info.dora.omote, k);
        d = d + count_hits(&info.dora.ura, k);
        n = n + d;
        i = i + 1;
    }
    proof {
        assert(all@.take(i as int) =~= all@);
    }
    n
}

} // verus!
