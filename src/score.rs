//! Score calculation for a completed hand: winning patterns (yaku), han, fu
//! and point transfers under a rule configuration.
use vstd::prelude::*;
use crate::types::{Hand, Dora, Tile, Wind};
use crate::shanten::{
    chitoitsu_shanten, chitoitsu_shanten_counts, counts_wf, kokushi_shanten,
    kokushi_shanten_counts, shanten, shanten_counts,
};
use crate::division::{best_division, calculate_dividedhand_score, melds_all_wf};
use crate::types::{calculate_tile_counts, meld_wf, melds_ids, counts_of, wind_index, MAX_TILES};
use crate::yaku::melds_tiles;
use crate::types::as_ints;
use crate::yaku::{
    all_tiles, chinitsu_spec, chinroto_spec, churen9_spec, churen_spec, count_num_doras,
    daisangen_spec, daisushi_spec, honitsu_spec, honrouto_spec, is_chinitsu, is_chinroto,
    is_churenpouton, is_churenpouton9, is_daisangen, is_daisushi, is_honitsu, is_honrouto,
    is_kokushimusou13, is_ryuiso, is_sankantsu, is_suanko, is_suankotanki, is_sukantsu,
    is_syosangen, is_syosushi, is_tanyao, is_tsuiso, kokushi13_spec, menzen, num_dora,
    ryuiso_spec, sankantsu_spec, suanko_spec, suankotanki_spec, sukantsu_spec, syosangen_spec,
    syosushi_spec, tanyao_spec, tsuiso_spec, wind_idx, MAX_WIN_TILES,
};

verus! {

/// Winning patterns.
#[derive(PartialEq, Eq, Structural, Clone, Copy, Debug, Hash)]
pub enum Yaku {
    Riichi,
    Doubleriichi,
    Ippatsu,
    Tsumo,
    Tanyao,
    Pinfu,
    Ipeko,
    Bakaze,
    Jikaze,
    Haku,
    Hatu,
    Chun,
    Rinshan,
    Chankan,
    Haiteitsumo,
    Houteiron,
    Sansyokudoujyun,
    Ikkitsukan,
    Chanta,
    Chitoitsu,
    Toitoiho,
    Sananko,
    Honrouto,
    Sansyokudoukoku,
    Sankantsu,
    Syosangen,
    Honitsu,
    Jyunchanta,
    Ryanpeko,
    Chinitsu,
    Tenho,
    Chiho,
    Kokushimusou,
    Kokushimusou13,
    Churenpouton,
    Churenpouton9,
    Suanko,
    Suankotanki,
    Daisushi,
    Syosushi,
    Daisangen,
    Tsuiso,
    Chinroto,
    Ryuiso,
    Sukantsu,
    Dora,
    Nagashimangan,
}

/// Everything about a win that scoring reads.
pub struct AgariInformation {
    /// The tile that completed the hand.
    pub wining_tile: Tile,
    /// The hand before the winning tile.
    pub hand: Hand,
    /// Bonus counters (honba).
    pub nhonba: i32,
    /// Riichi sticks on the table.
    pub nriichi: i32,
    /// Round wind.
    pub round: Wind,
    /// Seat wind.
    pub player: Wind,
    /// Self-drawn win?
    pub tsumo: bool,
    pub riichi: bool,
    pub ippatsu: bool,
    pub doubleriichi: bool,
    /// Win on the last tile.
    pub haitei: bool,
    /// Win on a replacement tile after a quad.
    pub rinshan: bool,
    /// Win by robbing a quad.
    pub chankan: bool,
    pub nagashimangan: bool,
    pub tenho: bool,
    pub chiho: bool,
    pub dora: Dora,
}

/// Who pays what.
#[derive(Debug, PartialEq, Eq, Structural, Clone, Copy)]
pub enum Feed {
    /// The discarder pays all.
    Duck { point: i32 },
    /// Self-draw: each non-dealer pays `ko`, the dealer pays `oya`.
    Tsumo { ko: i32, oya: i32 },
}

/// Points gained and paid.
#[derive(Debug, PartialEq, Eq, Structural, Clone, Copy)]
pub struct Point {
    /// Total gained by the winner.
    pub get: i32,
    /// Payments.
    pub feed: Feed,
}

/// Result of a score calculation.
#[derive(Debug)]
pub struct Score {
    pub han: i32,
    pub fu: i32,
    /// Winning patterns, each once, in the order they were found.
    pub yaku: Vec<Yaku>,
    pub point: Point,
}

/// Scoring rule toggles.
#[derive(Copy, Clone, PartialEq, Eq, Structural, Debug)]
pub struct ScoreRuleConfig {
    /// All-simples allowed in an open hand.
    pub kuitan: bool,
    /// Thirteen orphans on a 13-sided wait counts double.
    pub kokushi13_as_double: bool,
    /// Four concealed triplets on a single wait counts double.
    pub suankotanki_as_double: bool,
    /// A bonus counter is worth 1500 instead of 300.
    pub ba1500: bool,
    /// 4 han 30 fu and 3 han 60 fu are rounded up to mangan.
    pub mangan_roundup: bool,
    /// Nagashi mangan is scored.
    pub nagashimangan: bool,
}

/// Why a win cannot be scored.
#[derive(PartialEq, Eq, Structural, Clone, Copy, Debug)]
pub enum ScoreError {
    /// A meld is not a triplet or quad of one kind, or a run given lowest first.
    InvalidMeld,
    /// Riichi declared on a hand that is not fully concealed.
    RiichiWithOpenHand,
    /// Riichi and double riichi both declared.
    RiichiAndDoubleRiichi,
    /// A win on a replacement tile that is not self-drawn.
    RinshanWithoutTsumo,
    /// The tiles do not form a winning hand.
    NotAgari,
    /// No winning pattern: no han, or han from dora alone.
    NoYaku,
}

/// The default rules.
pub open spec fn default_rules() -> ScoreRuleConfig {
    ScoreRuleConfig {
        kuitan: true,
        kokushi13_as_double: true,
        suankotanki_as_double: true,
        ba1500: false,
        mangan_roundup: false,
        nagashimangan: true,
    }
}

/// The default rules: open all-simples, both double-yakuman waits doubled,
/// 300 per bonus counter, no mangan round-up, nagashi mangan scored.
pub fn get_rule_config() -> (r: ScoreRuleConfig)
    ensures
        r == default_rules(),
{
    ScoreRuleConfig {
        kuitan: true,
        kokushi13_as_double: true,
        suankotanki_as_double: true,
        ba1500: false,
        mangan_roundup: false,
        nagashimangan: true,
    }
}

/// Replaces the rules held in `current` by `config`.
pub fn set_rule_config(current: &mut ScoreRuleConfig, config: &ScoreRuleConfig)
    ensures
        *final(current) == *config,
{
    *current = *config;
}

/// Han of one yakuman.
pub const HAN_YAKUMAN: i32 = 13;

/// Overflow bound: most dora indicators (visible and hidden together) a
/// calculation takes. With at most `MAX_WIN_TILES` tiles each carrying one
/// dora per indicator plus a red one, the dora count stays within `MAX_DORA`,
/// and every han total within `MAX_HAN`, so every payment fits an `i32`.
pub const MAX_INDICATORS: usize = 1900;

/// Overflow bound: most dora a win can carry, `(1 + MAX_INDICATORS) * MAX_WIN_TILES`.
pub const MAX_DORA: i32 = 484755;

/// Overflow bound: most bonus counters or riichi sticks a calculation takes.
pub const MAX_STICKS: i32 = 10000;

/// `val` rounded up to a multiple of `n`.
pub open spec fn roundup_spec(val: int, n: int) -> int {
    ((val + (n - 1)) / n) * n
}

/// Rounding up gives the least multiple of `n` that is at least `val`.
pub proof fn lemma_roundup(val: int, n: int)
    requires
        0 <= val,
        0 < n,
    ensures
        roundup_spec(val, n) % n == 0,
        val <= roundup_spec(val, n) < val + n,
{
    let q = (val + n - 1) / n;
    assert(q * n % n == 0) by (nonlinear_arith)
        requires
            0 < n,
            0 <= q,
    ;
    assert(val <= q * n < val + n) by (nonlinear_arith)
        requires
            0 <= val,
            0 < n,
            q == (val + n - 1) / n,
    ;
}

pub(crate) fn roundup(val: i32, n: i32) -> (r: i32)
    requires
        0 <= val,
        0 < n,
        val + n - 1 <= i32::MAX,
    ensures
        r as int == roundup_spec(val as int, n as int),
        r % n == 0,
        val <= r < val + n,
{
    proof {
        lemma_roundup(val as int, n as int);
    }
    ((val + (n - 1)) / n) * n
}

/// Basic points for a han and fu count.
pub open spec fn basic_point_spec(cfg: ScoreRuleConfig, han: int, fu: int) -> int {
    if cfg.mangan_roundup && ((han == 4 && fu == 30) || (han == 3 && fu == 60)) {
        2000
    } else if 1 <= han <= 4 {
        let b = fu * pow2(han + 2);
        if b >= 2000 { 2000 } else { b }
    } else if han == 5 {
        2000
    } else if 6 <= han <= 7 {
        3000
    } else if 8 <= han <= 10 {
        4000
    } else if 11 <= han <= 12 {
        6000
    } else if han % 13 == 0 {
        (han / 13) * 8000
    } else {
        8000
    }
}

/// Two to the power `n`.
pub open spec fn pow2(n: int) -> int
    decreases n,
{
    if n <= 0 { 1 } else { 2 * pow2(n - 1) }
}

/// Overflow bound: largest han a calculation reaches (stacked yakuman pay
/// 8000 basic points each, and six times that must fit an `i32`).
pub const MAX_HAN: i32 = 500000;

/// Overflow bound: largest fu a calculation reaches.
pub const MAX_FU: i32 = 4000;

/// Basic points: fu times 2 to the han plus two, capped at 2000 up to 4 han,
/// then fixed plateaus, and 8000 for each stacked yakuman.
pub fn calculate_basic_point(han: i32, fu: i32, cfg: &ScoreRuleConfig) -> (r: i32)
    requires
        1 <= han <= MAX_HAN,
        0 <= fu <= MAX_FU,
    ensures
        r as int == basic_point_spec(*cfg, han as int, fu as int),
        0 <= r <= 8000 * (MAX_HAN / 13),
{
    if cfg.mangan_roundup {
        if (han == 4 && fu == 30) || (han == 3 && fu == 60) {
            return 2000;
        }
    }
    if 1 <= han && han <= 4 {
        let mut p: i32 = fu;
        let mut k: i32 = 0;
        while k < han + 2
            invariant
                0 <= k <= han + 2,
                1 <= han <= 4,
                0 <= fu <= MAX_FU,
                p as int == fu * pow2(k as int),
                0 <= p <= fu * 64,
            decreases han + 2 - k,
        {
            proof {
                assert(pow2(k as int + 1) == 2 * pow2(k as int));
                assert(fu * pow2(k as int + 1) == 2 * (fu * pow2(k as int))) by (nonlinear_arith)
                    requires
                        pow2(k as int + 1) == 2 * pow2(k as int),
                ;
                assert(pow2(k as int) <= 32) by {
                    lemma_pow2_mono(k as int, 5);
                    reveal_with_fuel(pow2, 6);
                }
                assert(fu * pow2(k as int) <= fu * 32) by (nonlinear_arith)
                    requires
                        0 <= fu,
                        pow2(k as int) <= 32,
                ;
            }
            p = p * 2;
            k = k + 1;
        }
        if p >= 2000 {
            2000
        } else {
            p
        }
    } else if han == 5 {
        2000
    } else if han <= 7 {
        3000
    } else if han <= 10 {
        4000
    } else if han <= 12 {
        6000
    } else if han % 13 == 0 {
        (han / 13) * 8000
    } else {
        8000
    }
}

proof fn lemma_pow2_mono(a: int, b: int)
    requires
        0 <= a <= b,
    ensures
        1 <= pow2(a) <= pow2(b),
    decreases b,
{
    if b > 0 && a < b {
        lemma_pow2_mono(a, b - 1);
    } else if b > 0 {
        lemma_pow2_mono(a - 1, b - 1);
    }
}

/// Value of the bonus counters.
pub open spec fn tsumibo_spec(cfg: ScoreRuleConfig, nhonba: int) -> int {
    if cfg.ba1500 { 1500 * nhonba } else { 300 * nhonba }
}

/// The point transfer of a win: payments rounded up to 100 each, the bonus
/// counters added to each payment (split three ways on a self-draw), the
/// riichi sticks to the total only.
pub open spec fn point_is(p: Point, cfg: ScoreRuleConfig, player: Wind, tsumo: bool, nhonba: int, nriichi: int, han: int, fu: int) -> bool {
    let b = basic_point_spec(cfg, han, fu);
    let t = tsumibo_spec(cfg, nhonba);
    let rb = 1000 * nriichi;
    if player == Wind::Ton {
        if tsumo {
            let pay = roundup_spec(2 * b, 100) + t / 3;
            p.get == 3 * pay + rb && p.feed == (Feed::Tsumo { ko: pay as i32, oya: 0 })
                && pay == pay as i32
        } else {
            let pay = roundup_spec(6 * b, 100) + t;
            p.get == pay + rb && p.feed == (Feed::Duck { point: pay as i32 }) && pay == pay as i32
        }
    } else {
        if tsumo {
            let ko = roundup_spec(b, 100) + t / 3;
            let oya = roundup_spec(2 * b, 100) + t / 3;
            p.get == 2 * ko + oya + rb && p.feed == (Feed::Tsumo { ko: ko as i32, oya: oya as i32 })
                && ko == ko as i32 && oya == oya as i32
        } else {
            let pay = roundup_spec(4 * b, 100) + t;
            p.get == pay + rb && p.feed == (Feed::Duck { point: pay as i32 }) && pay == pay as i32
        }
    }
}

/// Point transfer of a win with `han` and `fu`.
pub fn calculate_point(info: &AgariInformation, han: i32, fu: i32, cfg: &ScoreRuleConfig) -> (r: Point)
    requires
        1 <= han <= MAX_HAN,
        0 <= fu <= MAX_FU,
        0 <= info.nhonba <= MAX_STICKS,
        0 <= info.nriichi <= MAX_STICKS,
    ensures
        point_is(r, *cfg, info.player, info.tsumo, info.nhonba as int, info.nriichi as int, han as int, fu as int),
{
    let basic_point = calculate_basic_point(han, fu, cfg);
    let tsumibo_point = if cfg.ba1500 {
        1500 * info.nhonba
    } else {
        300 * info.nhonba
    };
    let riichibo_point = 1000 * info.nriichi;
    match info.player {
        Wind::Ton => {
            if info.tsumo {
                let payment = roundup(2 * basic_point, 100) + tsumibo_point / 3;
                Point { get: 3 * payment + riichibo_point, feed: Feed::Tsumo { ko: payment, oya: 0 } }
            } else {
                let payment = roundup(6 * basic_point, 100) + tsumibo_point;
                Point { get: payment + riichibo_point, feed: Feed::Duck { point: payment } }
            }
        },
        _ => {
            if info.tsumo {
                let ko_payment = roundup(basic_point, 100) + tsumibo_point / 3;
                let oya_payment = roundup(2 * basic_point, 100) + tsumibo_point / 3;
                Point {
                    get: 2 * ko_payment + oya_payment + riichibo_point,
                    feed: Feed::Tsumo { ko: ko_payment, oya: oya_payment },
                }
            } else {
                let payment = roundup(4 * basic_point, 100) + tsumibo_point;
                Point { get: payment + riichibo_point, feed: Feed::Duck { point: payment } }
            }
        },
    }
}


/// `acc` with `y` and `h` han added when `cond` holds.
pub open spec fn add_yaku_spec(acc: (int, Seq<Yaku>), cond: bool, y: Yaku, h: int) -> (int, Seq<Yaku>) {
    if cond {
        (acc.0 + h, acc.1.push(y))
    } else {
        acc
    }
}

fn add_yaku(yaku: &mut Vec<Yaku>, han: &mut i32, cond: bool, y: Yaku, h: i32)
    requires
        0 <= *old(han) <= MAX_HAN,
        0 <= h <= MAX_DORA,
    ensures
        (*final(han) as int, final(yaku)@) == add_yaku_spec((*old(han) as int, old(yaku)@), cond, y, h as int),
        *old(han) <= *final(han) <= *old(han) + h,
{
    if cond {
        yaku.push(y);
        *han = *han + h;
    }
}

/// The win fits the limits of a calculation: few enough tiles and indicators.
pub open spec fn win_in_bounds(info: AgariInformation) -> bool {
    &&& info.dora.omote@.len() + info.dora.ura@.len() <= MAX_INDICATORS
    &&& all_tiles(info).len() <= MAX_WIN_TILES
}

/// Last-tile pattern of a win.
pub open spec fn haitei_yaku(tsumo: bool) -> Yaku {
    if tsumo { Yaku::Haiteitsumo } else { Yaku::Houteiron }
}

/// Applies a table of (condition, pattern, han) rules in order.
pub open spec fn apply_rules(acc: (int, Seq<Yaku>), rules: Seq<(bool, Yaku, int)>) -> (int, Seq<Yaku>)
    decreases rules.len(),
{
    if rules.len() == 0 {
        acc
    } else {
        let r = rules.last();
        add_yaku_spec(apply_rules(acc, rules.drop_last()), r.0, r.1, r.2)
    }
}

/// Applying two tables one after the other applies their concatenation.
pub proof fn lemma_apply_rules_concat(acc: (int, Seq<Yaku>), a: Seq<(bool, Yaku, int)>, b: Seq<(bool, Yaku, int)>)
    ensures
        apply_rules(acc, a + b) == apply_rules(apply_rules(acc, a), b),
    decreases b.len(),
{
    if b.len() == 0 {
        assert(a + b =~= a);
    } else {
        lemma_apply_rules_concat(acc, a, b.drop_last());
        assert((a + b).drop_last() =~= a + b.drop_last());
        assert((a + b).last() == b.last());
    }
}

/// A rule with its han as an integer.
pub open spec fn rule_view(r: (bool, Yaku, i32)) -> (bool, Yaku, int) {
    (r.0, r.1, r.2 as int)
}

pub(crate) fn apply_yaku_rules(yaku: &mut Vec<Yaku>, han: &mut i32, rules: &Vec<(bool, Yaku, i32)>)
    requires
        0 <= *old(han) <= MAX_DORA + 1000,
        rules@.len() <= 20,
        forall|i: int| 0 <= i < rules@.len() ==> 0 <= #[trigger] rules@[i].2 <= 26,
    ensures
        (*final(han) as int, final(yaku)@) == apply_rules((*old(han) as int, old(yaku)@), rules@.map_values(|r: (bool, Yaku, i32)| rule_view(r))),
        *old(han) <= *final(han) <= *old(han) + 26 * rules@.len(),
{
    let ghost h0 = *han as int;
    let ghost y0 = yaku@;
    let ghost rv = rules@.map_values(|r: (bool, Yaku, i32)| rule_view(r));
    let mut i: usize = 0;
    while i < rules.len()
        invariant
            i <= rules@.len(),
            rules@.len() <= 20,
            forall|j: int| 0 <= j < rules@.len() ==> 0 <= #[trigger] rules@[j].2 <= 26,
            rv == rules@.map_values(|r: (bool, Yaku, i32)| rule_view(r)),
            (*han as int, yaku@) == apply_rules((h0, y0), rv.take(i as int)),
            h0 <= *han <= h0 + 26 * i,
            0 <= h0 <= MAX_DORA + 1000,
        decreases rules@.len() - i,
    {
        let (cond, y, h) = rules[i];
        proof {
            assert(rv.take(i as int + 1).drop_last() =~= rv.take(i as int));
            assert(rv.take(i as int + 1).last() == rule_view(rules@[i as int]));
        }
        add_yaku(yaku, han, cond, y, h);
        i = i + 1;
    }
    proof {
        assert(rv.take(i as int) =~= rv);
    }
}

/// Rules before dora, for a hand scored by its melds.
pub open spec fn marged_rules_a(info: AgariInformation) -> Seq<(bool, Yaku, int)> {
    seq![
        (menzen(info) && info.tsumo, Yaku::Tsumo, 1int),
        (info.riichi, Yaku::Riichi, 1int),
        (!info.riichi && info.doubleriichi, Yaku::Doubleriichi, 2int),
        (info.ippatsu && (info.riichi || info.doubleriichi), Yaku::Ippatsu, 1int),
    ]
}

/// Rules after dora, for a hand scored by its melds: last tile and the
/// patterns of the whole multiset.
pub open spec fn marged_rules_b1(info: AgariInformation, cfg: ScoreRuleConfig, c: Seq<int>) -> Seq<(bool, Yaku, int)> {
    let m = menzen(info);
    seq![
        (info.haitei, haitei_yaku(info.tsumo), 1int),
        (honrouto_spec(c), Yaku::Honrouto, 2int),
        (chinitsu_spec(c), Yaku::Chinitsu, if m { 6int } else { 5int }),
        (honitsu_spec(c), Yaku::Honitsu, if m { 3int } else { 2int }),
        (tanyao_spec(info, cfg, c), Yaku::Tanyao, 1int),
    ]
}

/// Rules after dora: quads, dragons and the situation.
pub open spec fn marged_rules_b2(info: AgariInformation, c: Seq<int>) -> Seq<(bool, Yaku, int)> {
    seq![
        (sankantsu_spec(info), Yaku::Sankantsu, 2int),
        (syosangen_spec(c), Yaku::Syosangen, 2int),
        (info.chankan, Yaku::Chankan, 1int),
        (info.rinshan, Yaku::Rinshan, 1int),
        (c[31] >= 3, Yaku::Haku, 1int),
    ]
}

/// Rules after dora: value triplets.
pub open spec fn marged_rules_b3(info: AgariInformation, c: Seq<int>) -> Seq<(bool, Yaku, int)> {
    seq![
        (c[32] >= 3, Yaku::Hatu, 1int),
        (c[33] >= 3, Yaku::Chun, 1int),
        (c[wind_idx(info.round)] >= 3, Yaku::Bakaze, 1int),
        (c[wind_idx(info.player)] >= 3, Yaku::Jikaze, 1int),
    ]
}

/// Rules after dora, for a hand scored by its melds.
pub open spec fn marged_rules_b(info: AgariInformation, cfg: ScoreRuleConfig, c: Seq<int>) -> Seq<(bool, Yaku, int)> {
    marged_rules_b1(info, cfg, c) + marged_rules_b2(info, c) + marged_rules_b3(info, c)
}

/// Dora, counted as han when there are any.
pub open spec fn with_dora(acc: (int, Seq<Yaku>), info: AgariInformation) -> (int, Seq<Yaku>) {
    add_yaku_spec(acc, num_dora(info) > 0, Yaku::Dora, num_dora(info))
}

/// Patterns read from the whole multiset or the situation, for a hand scored
/// by its melds: han, and patterns in the order they are checked.
pub open spec fn marged_yaku_han(info: AgariInformation, cfg: ScoreRuleConfig, c: Seq<int>) -> (int, Seq<Yaku>) {
    apply_rules(with_dora(apply_rules((0, seq![]), marged_rules_a(info)), info), marged_rules_b(info, cfg, c))
}

fn add_dora(info: &AgariInformation, yaku: &mut Vec<Yaku>, han: &mut i32)
    requires
        0 <= *old(han) <= 1000,
        win_in_bounds(*info),
    ensures
        (*final(han) as int, final(yaku)@) == with_dora((*old(han) as int, old(yaku)@), *info),
        *old(han) <= *final(han) <= *old(han) + MAX_DORA,
{
    let ndora = count_num_doras(info);
    add_yaku(yaku, han, ndora > 0, Yaku::Dora, ndora);
}

fn apply_marged_rules_b(info: &AgariInformation, cfg: &ScoreRuleConfig, c: &Vec<u8>, yaku: &mut Vec<Yaku>, han: &mut i32)
    requires
        counts_wf(c@),
        0 <= *old(han) <= MAX_DORA + 200,
    ensures
        (*final(han) as int, final(yaku)@) == apply_rules((*old(han) as int, old(yaku)@), marged_rules_b(*info, *cfg, as_ints(c@))),
        *old(han) <= *final(han) <= *old(han) + 364,
{
    let m = info.hand.is_menzen();
    let hy = if info.tsumo { Yaku::Haiteitsumo } else { Yaku::Houteiron };
    let honrouto = is_honrouto(c);
    let chinitsu = is_chinitsu(c);
    let honitsu = is_honitsu(c);
    let tanyao = is_tanyao(info, cfg, c);
    let sankantsu = is_sankantsu(info);
    let syosangen = is_syosangen(c);
    let haku = c[31] >= 3;
    let hatu = c[32] >= 3;
    let chun = c[33] >= 3;
    let bakaze = c[wind_index(info.round)] >= 3;
    let jikaze = c[wind_index(info.player)] >= 3;
    let rules_b1 = vec![
        (info.haitei, hy, 1i32),
        (honrouto, Yaku::Honrouto, 2i32),
        (chinitsu, Yaku::Chinitsu, if m { 6i32 } else { 5i32 }),
        (honitsu, Yaku::Honitsu, if m { 3i32 } else { 2i32 }),
        (tanyao, Yaku::Tanyao, 1i32),
    ];
    let rules_b2 = vec![
        (sankantsu, Yaku::Sankantsu, 2i32),
        (syosangen, Yaku::Syosangen, 2i32),
        (info.chankan, Yaku::Chankan, 1i32),
        (info.rinshan, Yaku::Rinshan, 1i32),
        (haku, Yaku::Haku, 1i32),
    ];
    let rules_b3 = vec![
        (hatu, Yaku::Hatu, 1i32),
        (chun, Yaku::Chun, 1i32),
        (bakaze, Yaku::Bakaze, 1i32),
        (jikaze, Yaku::Jikaze, 1i32),
    ];
    let ghost v1 = rules_b1@.map_values(|r: (bool, Yaku, i32)| rule_view(r));
    let ghost v2 = rules_b2@.map_values(|r: (bool, Yaku, i32)| rule_view(r));
    let ghost v3 = rules_b3@.map_values(|r: (bool, Yaku, i32)| rule_view(r));
    let ghost acc = (*han as int, yaku@);
    apply_yaku_rules(yaku, han, &rules_b1);
    apply_yaku_rules(yaku, han, &rules_b2);
    apply_yaku_rules(yaku, han, &rules_b3);
    proof {
        assert(v1 =~= marged_rules_b1(*info, *cfg, as_ints(c@)));
        assert(v2 =~= marged_rules_b2(*info, as_ints(c@)));
        assert(v3 =~= marged_rules_b3(*info, as_ints(c@)));
        lemma_apply_rules_concat(acc, v1 + v2, v3);
        lemma_apply_rules_concat(acc, v1, v2);
    }
}

fn apply_marged_rules_a(info: &AgariInformation, yaku: &mut Vec<Yaku>, han: &mut i32)
    requires
        *old(han) == 0,
    ensures
        (*final(han) as int, final(yaku)@) == apply_rules((0, old(yaku)@), marged_rules_a(*info)),
        0 <= *final(han) <= 26 * 4,
{
    let m = info.hand.is_menzen();
    let rules_a = vec![
        (m && info.tsumo, Yaku::Tsumo, 1i32),
        (info.riichi, Yaku::Riichi, 1i32),
        (!info.riichi && info.doubleriichi, Yaku::Doubleriichi, 2i32),
        (info.ippatsu && (info.riichi || info.doubleriichi), Yaku::Ippatsu, 1i32),
    ];
    proof {
        assert(rules_a@.map_values(|r: (bool, Yaku, i32)| rule_view(r)) =~= marged_rules_a(*info));
    }
    apply_yaku_rules(yaku, han, &rules_a);
}

/// Patterns that need no split into melds, for a hand scored by its melds.
fn calculate_margedand_yaku_han(info: &AgariInformation, cfg: &ScoreRuleConfig, c: &Vec<u8>) -> (r: (Vec<Yaku>, i32))
    requires
        counts_wf(c@),
        win_in_bounds(*info),
    ensures
        (r.1 as int, r.0@) == marged_yaku_han(*info, *cfg, as_ints(c@)),
        0 <= r.1 <= MAX_DORA + 500,
        r.1 >= num_dora(*info),
{
    let mut yaku: Vec<Yaku> = Vec::new();
    let mut han: i32 = 0;
    apply_marged_rules_a(info, &mut yaku, &mut han);
    add_dora(info, &mut yaku, &mut han);
    apply_marged_rules_b(info, cfg, c, &mut yaku, &mut han);
    (yaku, han)
}

/// Tenho, or else chiho.
pub open spec fn heaven_earth_rules(info: AgariInformation) -> Seq<(bool, Yaku, int)> {
    seq![(info.tenho, Yaku::Tenho, 13int), (!info.tenho && info.chiho, Yaku::Chiho, 13int)]
}

/// Han and patterns of thirteen orphans.
pub open spec fn kokushi_yaku_han(info: AgariInformation, cfg: ScoreRuleConfig, c: Seq<int>) -> (int, Seq<Yaku>) {
    let k13 = kokushi13_spec(info, c);
    apply_rules(
        (0, seq![]),
        heaven_earth_rules(info) + seq![
            (k13, Yaku::Kokushimusou13, if cfg.kokushi13_as_double { 26int } else { 13int }),
            (!k13, Yaku::Kokushimusou, 13int),
        ],
    )
}

/// Yakuman that can stand with seven pairs.
pub open spec fn chitoitsu_yakuman(info: AgariInformation, c: Seq<int>) -> (int, Seq<Yaku>) {
    apply_rules((0, seq![]), heaven_earth_rules(info) + seq![(tsuiso_spec(c), Yaku::Tsuiso, 13int)])
}

/// Rules of seven pairs before dora.
pub open spec fn chitoitsu_rules_a(info: AgariInformation) -> Seq<(bool, Yaku, int)> {
    seq![
        (info.tsumo, Yaku::Tsumo, 1int),
        (info.doubleriichi, Yaku::Doubleriichi, 2int),
        (!info.doubleriichi && info.riichi, Yaku::Riichi, 1int),
        (info.riichi && info.ippatsu, Yaku::Ippatsu, 1int),
        (info.haitei, haitei_yaku(info.tsumo), 1int),
    ]
}

/// Rules of seven pairs after dora.
pub open spec fn chitoitsu_rules_b(info: AgariInformation, cfg: ScoreRuleConfig, c: Seq<int>) -> Seq<(bool, Yaku, int)> {
    seq![
        (honrouto_spec(c), Yaku::Honrouto, 2int),
        (chinitsu_spec(c), Yaku::Chinitsu, 6int),
        (honitsu_spec(c), Yaku::Honitsu, 3int),
        (tanyao_spec(info, cfg, c), Yaku::Tanyao, 1int),
    ]
}

/// Han and patterns of seven pairs (2 han to start); a yakuman that can
/// stand with it replaces the pattern list.
pub open spec fn chitoitsu_yaku_han(info: AgariInformation, cfg: ScoreRuleConfig, c: Seq<int>) -> (int, Seq<Yaku>) {
    let y = chitoitsu_yakuman(info, c);
    if y.0 >= 13 {
        y
    } else {
        apply_rules(
            with_dora(apply_rules((2, y.1.push(Yaku::Chitoitsu)), chitoitsu_rules_a(info)), info),
            chitoitsu_rules_b(info, cfg, c),
        )
    }
}

/// Yakuman read from the whole multiset: heavenly wins, nine gates, four
/// concealed triplets on a single wait.
pub open spec fn yakuman_rules1(info: AgariInformation, cfg: ScoreRuleConfig, c: Seq<int>) -> Seq<(bool, Yaku, int)> {
    seq![
        (info.tenho, Yaku::Tenho, 13int),
        (info.chiho, Yaku::Chiho, 13int),
        (churen_spec(info, c), Yaku::Churenpouton, 13int),
        (churen9_spec(info, c), Yaku::Churenpouton9, 26int),
        (suankotanki_spec(info, c), Yaku::Suankotanki, if cfg.suankotanki_as_double { 26int } else { 13int }),
    ]
}

/// Yakuman: four concealed triplets, all green, all terminals, big winds.
pub open spec fn yakuman_rules2(info: AgariInformation, c: Seq<int>) -> Seq<(bool, Yaku, int)> {
    seq![
        (suanko_spec(info, c), Yaku::Suanko, 13int),
        (ryuiso_spec(c), Yaku::Ryuiso, 13int),
        (chinroto_spec(c), Yaku::Chinroto, 13int),
        (daisushi_spec(c), Yaku::Daisushi, 13int),
    ]
}

/// Yakuman: little winds, all honors, four quads, big dragons.
pub open spec fn yakuman_rules3(info: AgariInformation, c: Seq<int>) -> Seq<(bool, Yaku, int)> {
    seq![
        (syosushi_spec(c), Yaku::Syosushi, 13int),
        (tsuiso_spec(c), Yaku::Tsuiso, 13int),
        (sukantsu_spec(info), Yaku::Sukantsu, 13int),
        (daisangen_spec(c), Yaku::Daisangen, 13int),
    ]
}

/// Yakuman read from the whole multiset (thirteen orphans aside).
pub open spec fn yakuman_rules(info: AgariInformation, cfg: ScoreRuleConfig, c: Seq<int>) -> Seq<(bool, Yaku, int)> {
    yakuman_rules1(info, cfg, c) + yakuman_rules2(info, c) + yakuman_rules3(info, c)
}

/// Stacked yakuman read from the whole multiset.
pub open spec fn yakuman_yaku_han(info: AgariInformation, cfg: ScoreRuleConfig, c: Seq<int>) -> (int, Seq<Yaku>) {
    apply_rules((0, seq![]), yakuman_rules(info, cfg, c))
}

/// A score holds the given han, fu and patterns (each listed once), and the
/// points they give.
pub open spec fn score_is(s: Score, info: AgariInformation, cfg: ScoreRuleConfig, han: int, fu: int, yaku: Seq<Yaku>) -> bool {
    &&& s.han as int == han
    &&& s.fu as int == fu
    &&& s.yaku@ == yaku
    &&& yaku.no_duplicates()
    &&& point_is(s.point, cfg, info.player, info.tsumo, info.nhonba as int, info.nriichi as int, han, fu)
}

/// The counters of a win are in range.
pub open spec fn sticks_in_bounds(info: AgariInformation) -> bool {
    0 <= info.nhonba <= MAX_STICKS && 0 <= info.nriichi <= MAX_STICKS
}

/// Score of thirteen orphans.
fn calculate_kokushimusou_score(info: &AgariInformation, cfg: &ScoreRuleConfig, c: &Vec<u8>) -> (r: Score)
    requires
        counts_wf(c@),
        sticks_in_bounds(*info),
    ensures
        score_is(r, *info, *cfg, kokushi_yaku_han(*info, *cfg, as_ints(c@)).0, 0, kokushi_yaku_han(*info, *cfg, as_ints(c@)).1),
{
    let mut yaku: Vec<Yaku> = Vec::new();
    let mut han: i32 = 0;
    let k13 = is_kokushimusou13(info, c);
    let rules = vec![
        (info.tenho, Yaku::Tenho, 13i32),
        (!info.tenho && info.chiho, Yaku::Chiho, 13i32),
        (k13, Yaku::Kokushimusou13, if cfg.kokushi13_as_double { 26i32 } else { 13i32 }),
        (!k13, Yaku::Kokushimusou, 13i32),
    ];
    proof {
        assert(rules@.map_values(|r: (bool, Yaku, i32)| rule_view(r)) =~= heaven_earth_rules(*info) + seq![
            (k13, Yaku::Kokushimusou13, if cfg.kokushi13_as_double { 26int } else { 13int }),
            (!k13, Yaku::Kokushimusou, 13int),
        ]);
    }
    apply_yaku_rules(&mut yaku, &mut han, &rules);
    proof {
        lemma_kokushi_yaku_distinct(*info, *cfg, as_ints(c@));
    }
    assert(han >= 13) by {
        reveal_with_fuel(apply_rules, 5);
    }
    let point = calculate_point(info, han, 0, cfg);
    Score { han, fu: 0, yaku, point }
}

/// Score of seven pairs (25 fu), or of the yakuman that stand with it.
fn calculate_chitoitsu_score(info: &AgariInformation, cfg: &ScoreRuleConfig, c: &Vec<u8>) -> (r: Score)
    requires
        counts_wf(c@),
        sticks_in_bounds(*info),
        win_in_bounds(*info),
    ensures
        ({
            let y = chitoitsu_yaku_han(*info, *cfg, as_ints(c@));
            let fu = if chitoitsu_yakuman(*info, as_ints(c@)).0 >= 13 { 0 } else { 25 };
            score_is(r, *info, *cfg, y.0, fu, y.1)
        }),
{
    proof {
        lemma_chitoitsu_yaku_distinct(*info, *cfg, as_ints(c@));
    }
    let mut yaku: Vec<Yaku> = Vec::new();
    let mut han: i32 = 0;
    let rules = vec![
        (info.tenho, Yaku::Tenho, 13i32),
        (!info.tenho && info.chiho, Yaku::Chiho, 13i32),
        (is_tsuiso(c), Yaku::Tsuiso, 13i32),
    ];
    proof {
        assert(rules@.map_values(|r: (bool, Yaku, i32)| rule_view(r)) =~= heaven_earth_rules(*info) + seq![(tsuiso_spec(as_ints(c@)), Yaku::Tsuiso, 13int)]);
    }
    apply_yaku_rules(&mut yaku, &mut han, &rules);
    if han >= HAN_YAKUMAN {
        let point = calculate_point(info, han, 0, cfg);
        return Score { han, fu: 0, yaku, point };
    }
    yaku.push(Yaku::Chitoitsu);
    han = 2;
    let fu: i32 = 25;
    let hy = if info.tsumo { Yaku::Haiteitsumo } else { Yaku::Houteiron };
    let rules_a = vec![
        (info.tsumo, Yaku::Tsumo, 1i32),
        (info.doubleriichi, Yaku::Doubleriichi, 2i32),
        (!info.doubleriichi && info.riichi, Yaku::Riichi, 1i32),
        (info.riichi && info.ippatsu, Yaku::Ippatsu, 1i32),
        (info.haitei, hy, 1i32),
    ];
    proof {
        assert(rules_a@.map_values(|r: (bool, Yaku, i32)| rule_view(r)) =~= chitoitsu_rules_a(*info));
    }
    apply_yaku_rules(&mut yaku, &mut han, &rules_a);
    add_dora(info, &mut yaku, &mut han);
    let rules_b = vec![
        (is_honrouto(c), Yaku::Honrouto, 2i32),
        (is_chinitsu(c), Yaku::Chinitsu, 6i32),
        (is_honitsu(c), Yaku::Honitsu, 3i32),
        (is_tanyao(info, cfg, c), Yaku::Tanyao, 1i32),
    ];
    proof {
        assert(rules_b@.map_values(|r: (bool, Yaku, i32)| rule_view(r)) =~= chitoitsu_rules_b(*info, *cfg, as_ints(c@)));
    }
    apply_yaku_rules(&mut yaku, &mut han, &rules_b);
    let point = calculate_point(info, han, fu, cfg);
    Score { han, fu, yaku, point }
}

/// Score of the yakuman read from the whole multiset, if any applies.
fn calculate_yakuman_score(info: &AgariInformation, cfg: &ScoreRuleConfig, c: &mut Vec<u8>) -> (r: Option<Score>)
    requires
        counts_wf(old(c)@),
        old(c)@[info.wining_tile.id.idx()] > 0,
        sticks_in_bounds(*info),
    ensures
        final(c)@ == old(c)@,
        ({
            let y = yakuman_yaku_han(*info, *cfg, as_ints(old(c)@));
            &&& r is Some <==> y.0 >= 13
            &&& r is Some ==> score_is(r->0, *info, *cfg, y.0, 0, y.1)
        }),
{
    proof {
        lemma_yakuman_yaku_distinct(*info, *cfg, as_ints(c@));
    }
    let mut yaku: Vec<Yaku> = Vec::new();
    let mut han: i32 = 0;
    let churen9 = is_churenpouton9(info, c);
    let churen = is_churenpouton(info, c);
    let tanki = is_suankotanki(info, c);
    let suanko = is_suanko(info, c);
    let ryuiso = is_ryuiso(c);
    let chinroto = is_chinroto(c);
    let daisushi = is_daisushi(c);
    let syosushi = is_syosushi(c);
    let tsuiso = is_tsuiso(c);
    let sukantsu = is_sukantsu(info);
    let daisangen = is_daisangen(c);
    let rules1 = vec![
        (info.tenho, Yaku::Tenho, 13i32),
        (info.chiho, Yaku::Chiho, 13i32),
        (churen, Yaku::Churenpouton, 13i32),
        (churen9, Yaku::Churenpouton9, 26i32),
        (tanki, Yaku::Suankotanki, if cfg.suankotanki_as_double { 26i32 } else { 13i32 }),
    ];
    let rules2 = vec![
        (suanko, Yaku::Suanko, 13i32),
        (ryuiso, Yaku::Ryuiso, 13i32),
        (chinroto, Yaku::Chinroto, 13i32),
        (daisushi, Yaku::Daisushi, 13i32),
    ];
    let rules3 = vec![
        (syosushi, Yaku::Syosushi, 13i32),
        (tsuiso, Yaku::Tsuiso, 13i32),
        (sukantsu, Yaku::Sukantsu, 13i32),
        (daisangen, Yaku::Daisangen, 13i32),
    ];
    let ghost v1 = rules1@.map_values(|r: (bool, Yaku, i32)| rule_view(r));
    let ghost v2 = rules2@.map_values(|r: (bool, Yaku, i32)| rule_view(r));
    let ghost v3 = rules3@.map_values(|r: (bool, Yaku, i32)| rule_view(r));
    let ghost acc = (han as int, yaku@);
    apply_yaku_rules(&mut yaku, &mut han, &rules1);
    apply_yaku_rules(&mut yaku, &mut han, &rules2);
    apply_yaku_rules(&mut yaku, &mut han, &rules3);
    proof {
        assert(v1 =~= yakuman_rules1(*info, *cfg, as_ints(c@)));
        assert(v2 =~= yakuman_rules2(*info, as_ints(c@)));
        assert(v3 =~= yakuman_rules3(*info, as_ints(c@)));
        lemma_apply_rules_concat(acc, v1 + v2, v3);
        lemma_apply_rules_concat(acc, v1, v2);
    }
    if han >= HAN_YAKUMAN {
        let point = calculate_point(info, han, 0, cfg);
        return Some(Score { han, fu: 0, yaku, point });
    }
    None
}


/// Counts of every tile of the win, the winning tile included.
pub open spec fn marged_counts(info: AgariInformation) -> Seq<int> {
    counts_of(info.hand.spec_marged().push(info.wining_tile.id))
}

/// What scoring a win gives: the first input error found, or the score of
/// the shape the tiles take (thirteen orphans, seven pairs, a yakuman of the
/// whole multiset, or the best split into melds).
pub open spec fn score_outcome(info: AgariInformation, cfg: ScoreRuleConfig, r: Result<Score, ScoreError>) -> bool {
    if !melds_all_wf(info) {
        r == Err::<Score, ScoreError>(ScoreError::InvalidMeld)
    } else if !menzen(info) && (info.riichi || info.doubleriichi) {
        r == Err::<Score, ScoreError>(ScoreError::RiichiWithOpenHand)
    } else if info.riichi && info.doubleriichi {
        r == Err::<Score, ScoreError>(ScoreError::RiichiAndDoubleRiichi)
    } else if info.rinshan && !info.tsumo {
        r == Err::<Score, ScoreError>(ScoreError::RinshanWithoutTsumo)
    } else if cfg.nagashimangan && info.nagashimangan {
        r is Ok && score_is(r->Ok_0, info, cfg, 5, 0, seq![Yaku::Nagashimangan])
    } else if all_tiles(info).len() > MAX_WIN_TILES {
        r == Err::<Score, ScoreError>(ScoreError::NotAgari)
    } else {
        let c = marged_counts(info);
        if shanten(c) != -1 {
            r == Err::<Score, ScoreError>(ScoreError::NotAgari)
        } else if kokushi_shanten(c) == -1 {
            let y = kokushi_yaku_han(info, cfg, c);
            r is Ok && score_is(r->Ok_0, info, cfg, y.0, 0, y.1)
        } else if chitoitsu_shanten(c) == -1 {
            let y = chitoitsu_yaku_han(info, cfg, c);
            let fu = if chitoitsu_yakuman(info, c).0 >= 13 { 0 } else { 25 };
            r is Ok && score_is(r->Ok_0, info, cfg, y.0, fu, y.1)
        } else if yakuman_yaku_han(info, cfg, c).0 >= 13 {
            let y = yakuman_yaku_han(info, cfg, c);
            r is Ok && score_is(r->Ok_0, info, cfg, y.0, 0, y.1)
        } else {
            let m = marged_yaku_han(info, cfg, c);
            exists|st: (int, int, Seq<Yaku>)| #[trigger] best_division(info, st) && if st.0 + m.0 == num_dora(info) {
                r == Err::<Score, ScoreError>(ScoreError::NoYaku)
            } else {
                r is Ok && score_is(r->Ok_0, info, cfg, st.0 + m.0, st.1, st.2 + m.1)
            }
        }
    }
}

proof fn lemma_melds_lengths(ms: Seq<crate::types::Meld>)
    ensures
        melds_ids(ms).len() == melds_tiles(ms).len(),
        melds_tiles(ms).len() >= 3 * ms.len(),
    decreases ms.len(),
{
    if ms.len() > 0 {
        lemma_melds_lengths(ms.drop_last());
    }
}

fn melds_well_formed(info: &AgariInformation) -> (r: bool)
    ensures
        r == melds_all_wf(*info),
{
    let mut i: usize = 0;
    while i < info.hand.melds.len()
        invariant
            i <= info.hand.melds@.len(),
            forall|j: int| 0 <= j < i ==> meld_wf(#[trigger] info.hand.melds@[j]),
        decreases info.hand.melds@.len() - i,
    {
        if !info.hand.melds[i].is_well_formed() {
            return false;
        }
        i = i + 1;
    }
    true
}

/// Scores a win under the given rules.
pub fn calculate_score(info: &AgariInformation, cfg: &ScoreRuleConfig) -> (r: Result<Score, ScoreError>)
    requires
        sticks_in_bounds(*info),
        info.dora.omote@.len() + info.dora.ura@.len() <= MAX_INDICATORS,
    ensures
        score_outcome(*info, *cfg, r),
{
    if !melds_well_formed(info) {
        return Err(ScoreError::InvalidMeld);
    }
    if !info.hand.is_menzen() && (info.riichi || info.doubleriichi) {
        return Err(ScoreError::RiichiWithOpenHand);
    }
    if info.riichi && info.doubleriichi {
        return Err(ScoreError::RiichiAndDoubleRiichi);
    }
    if info.rinshan && !info.tsumo {
        return Err(ScoreError::RinshanWithoutTsumo);
    }
    if cfg.nagashimangan && info.nagashimangan {
        let point = calculate_point(info, 5, 0, cfg);
        let mut yaku: Vec<Yaku> = Vec::new();
        yaku.push(Yaku::Nagashimangan);
        return Ok(Score { han: 5, fu: 0, yaku, point });
    }
    let mut marged = info.hand.marged_tiles();
    proof {
        lemma_melds_lengths(info.hand.melds@);
        assert(all_tiles(*info).len() == marged@.len() + 1);
    }
    if marged.len() >= MAX_WIN_TILES {
        return Err(ScoreError::NotAgari);
    }
    marged.push(info.wining_tile.id);
    let mut c = calculate_tile_counts(marged.as_slice());
    proof {
        assert(as_ints(c@) == marged_counts(*info));
        crate::types::lemma_count_idx_bounds(marged@, info.wining_tile.id.idx());
        crate::types::lemma_count_idx_bounds(marged@.drop_last(), info.wining_tile.id.idx());
        assert(marged@.last() == info.wining_tile.id);
        assert(counts_of(marged@)[info.wining_tile.id.idx()] >= 1);
        assert(marged@.drop_last() =~= info.hand.spec_marged());
        assert(as_ints(c@)[info.wining_tile.id.idx()] == c@[info.wining_tile.id.idx()] as int);
    }
    if shanten_counts(&mut c) != -1 {
        return Err(ScoreError::NotAgari);
    }
    if kokushi_shanten_counts(&c) == -1 {
        return Ok(calculate_kokushimusou_score(info, cfg, &c));
    }
    if chitoitsu_shanten_counts(&c) == -1 {
        return Ok(calculate_chitoitsu_score(info, cfg, &c));
    }
    if let Some(score) = calculate_yakuman_score(info, cfg, &mut c) {
        return Ok(score);
    }
    let triple = calculate_dividedhand_score(info);
    let (marged_yaku, marged_han) = calculate_margedand_yaku_han(info, cfg, &c);
    let han = triple.han + marged_han;
    let ndora = count_num_doras(info);
    if han == ndora {
        return Err(ScoreError::NoYaku);
    }
    let mut yaku = triple.yaku;
    let mut extra = marged_yaku;
    yaku.append(&mut extra);
    proof {
        let st = triple.view_triple();
        let m = marged_yaku_han(*info, *cfg, as_ints(c@));
        lemma_marged_yaku_distinct(*info, *cfg, as_ints(c@));
        crate::division::lemma_best_division_distinct(*info, st);
        lemma_concat_distinct(st.2, m.1);
    }
    let point = calculate_point(info, han, triple.fu, cfg);
    Ok(Score { han, fu: triple.fu, yaku, point })
}


/// Each payment is the basic points times its share, rounded up to a
/// multiple of 100, plus the bonus counters' share.
pub proof fn lemma_payments_rounded(p: Point, cfg: ScoreRuleConfig, player: Wind, tsumo: bool, nhonba: int, nriichi: int, han: int, fu: int)
    requires
        point_is(p, cfg, player, tsumo, nhonba, nriichi, han, fu),
        basic_point_spec(cfg, han, fu) >= 0,
    ensures
        ({
            let b = basic_point_spec(cfg, han, fu);
            let t = tsumibo_spec(cfg, nhonba);
            match p.feed {
                Feed::Duck { point } => {
                    let share = if player == Wind::Ton { 6 * b } else { 4 * b };
                    (point - t) % 100 == 0 && share <= point - t < share + 100
                },
                Feed::Tsumo { ko, oya } => {
                    let ko_share = if player == Wind::Ton { 2 * b } else { b };
                    &&& (ko - t / 3) % 100 == 0
                    &&& ko_share <= ko - t / 3 < ko_share + 100
                    &&& player != Wind::Ton ==> (oya - t / 3) % 100 == 0 && 2 * b <= oya - t / 3 < 2 * b + 100
                },
            }
        }),
{
    let b = basic_point_spec(cfg, han, fu);
    lemma_roundup(b, 100);
    lemma_roundup(2 * b, 100);
    lemma_roundup(4 * b, 100);
    lemma_roundup(6 * b, 100);
}


/// Patterns named by a rule table, in order.
pub open spec fn rule_yaku(rules: Seq<(bool, Yaku, int)>) -> Seq<Yaku> {
    rules.map_values(|r: (bool, Yaku, int)| r.1)
}

/// A table of distinct patterns, none listed yet, lists each pattern once;
/// what it lists comes from the start or from the table.
pub proof fn lemma_apply_rules_distinct(acc: (int, Seq<Yaku>), rules: Seq<(bool, Yaku, int)>)
    requires
        acc.1.no_duplicates(),
        rule_yaku(rules).no_duplicates(),
        forall|i: int| 0 <= i < acc.1.len() ==> !rule_yaku(rules).contains(#[trigger] acc.1[i]),
    ensures
        apply_rules(acc, rules).1.no_duplicates(),
        forall|i: int| 0 <= i < apply_rules(acc, rules).1.len() ==> acc.1.contains(#[trigger] apply_rules(acc, rules).1[i])
            || rule_yaku(rules).contains(apply_rules(acc, rules).1[i]),
    decreases rules.len(),
{
    if rules.len() > 0 {
        let p = rules.drop_last();
        let ry = rule_yaku(rules);
        assert(rule_yaku(p) =~= ry.drop_last());
        assert forall|i: int| 0 <= i < acc.1.len() implies !rule_yaku(p).contains(#[trigger] acc.1[i]) by {
            if rule_yaku(p).contains(acc.1[i]) {
                let j = choose|j: int| 0 <= j < rule_yaku(p).len() && rule_yaku(p)[j] == acc.1[i];
                assert(ry[j] == acc.1[i]);
            }
        }
        lemma_apply_rules_distinct(acc, p);
        let prev = apply_rules(acc, p);
        let r = rules.last();
        assert(ry[ry.len() - 1] == r.1);
        if r.0 {
            let res = prev.1.push(r.1);
            assert(!prev.1.contains(r.1)) by {
                if prev.1.contains(r.1) {
                    let i = choose|i: int| 0 <= i < prev.1.len() && prev.1[i] == r.1;
                    if acc.1.contains(prev.1[i]) {
                        let j = choose|j: int| 0 <= j < acc.1.len() && acc.1[j] == r.1;
                        assert(ry.contains(acc.1[j]));
                    } else {
                        let j = choose|j: int| 0 <= j < rule_yaku(p).len() && rule_yaku(p)[j] == r.1;
                        assert(ry[j] == ry[ry.len() - 1]);
                    }
                }
            }
            assert forall|i: int| 0 <= i < res.len() implies acc.1.contains(#[trigger] res[i]) || ry.contains(res[i]) by {
                if i < prev.1.len() {
                    assert(res[i] == prev.1[i]);
                    if rule_yaku(p).contains(prev.1[i]) {
                        let j = choose|j: int| 0 <= j < rule_yaku(p).len() && rule_yaku(p)[j] == prev.1[i];
                        assert(ry[j] == prev.1[i]);
                    }
                } else {
                    assert(ry[ry.len() - 1] == res[i]);
                }
            }
        } else {
            assert forall|i: int| 0 <= i < prev.1.len() implies acc.1.contains(#[trigger] prev.1[i]) || ry.contains(prev.1[i]) by {
                if rule_yaku(p).contains(prev.1[i]) {
                    let j = choose|j: int| 0 <= j < rule_yaku(p).len() && rule_yaku(p)[j] == prev.1[i];
                    assert(ry[j] == prev.1[i]);
                }
            }
        }
    }
}

/// Two lists without repeats and without a common pattern join without repeats.
pub proof fn lemma_concat_distinct(a: Seq<Yaku>, b: Seq<Yaku>)
    requires
        a.no_duplicates(),
        b.no_duplicates(),
        forall|i: int, j: int| 0 <= i < a.len() && 0 <= j < b.len() ==> a[i] != b[j],
    ensures
        (a + b).no_duplicates(),
{
    let c = a + b;
    assert forall|i: int, j: int| 0 <= i < c.len() && 0 <= j < c.len() && i != j implies c[i] != c[j] by {
        if i < a.len() && j >= a.len() {
            assert(c[j] == b[j - a.len()]);
        } else if j < a.len() && i >= a.len() {
            assert(c[i] == b[i - a.len()]);
        } else if i >= a.len() {
            assert(c[i] == b[i - a.len()] && c[j] == b[j - a.len()]);
        }
    }
}


/// Patterns that depend on how the hand is split into melds.
pub open spec fn division_pattern(y: Yaku) -> bool {
    y == Yaku::Pinfu || y == Yaku::Ryanpeko || y == Yaku::Ipeko || y == Yaku::Ikkitsukan
        || y == Yaku::Sansyokudoujyun || y == Yaku::Sansyokudoukoku || y == Yaku::Jyunchanta
        || y == Yaku::Chanta || y == Yaku::Toitoiho || y == Yaku::Sananko
}

proof fn lemma_with_dora_distinct(acc: (int, Seq<Yaku>), info: AgariInformation)
    requires
        acc.1.no_duplicates(),
        !acc.1.contains(Yaku::Dora),
    ensures
        with_dora(acc, info).1.no_duplicates(),
        forall|i: int| 0 <= i < with_dora(acc, info).1.len() ==> acc.1.contains(#[trigger] with_dora(acc, info).1[i])
            || with_dora(acc, info).1[i] == Yaku::Dora,
{
    let r = with_dora(acc, info).1;
    assert forall|i: int| 0 <= i < r.len() implies acc.1.contains(#[trigger] r[i]) || r[i] == Yaku::Dora by {
        if i < acc.1.len() {
            assert(r[i] == acc.1[i]);
        }
    }
}

/// The patterns of a hand scored by its melds, read without a split, are
/// listed once each and never depend on the split.
pub proof fn lemma_marged_yaku_distinct(info: AgariInformation, cfg: ScoreRuleConfig, c: Seq<int>)
    ensures
        marged_yaku_han(info, cfg, c).1.no_duplicates(),
        forall|i: int| 0 <= i < marged_yaku_han(info, cfg, c).1.len() ==> !division_pattern(#[trigger] marged_yaku_han(info, cfg, c).1[i]),
{
    let a = marged_rules_a(info);
    let b = marged_rules_b(info, cfg, c);
    let ya = seq![Yaku::Tsumo, Yaku::Riichi, Yaku::Doubleriichi, Yaku::Ippatsu];
    assert(rule_yaku(a) =~= ya);
    let s1 = apply_rules((0, seq![]), a);
    lemma_apply_rules_distinct((0, seq![]), a);
    assert(!s1.1.contains(Yaku::Dora)) by {
        if s1.1.contains(Yaku::Dora) {
            let i = choose|i: int| 0 <= i < s1.1.len() && s1.1[i] == Yaku::Dora;
            assert(ya.contains(s1.1[i]));
        }
    }
    lemma_with_dora_distinct(s1, info);
    let s2 = with_dora(s1, info);
    let yb = seq![haitei_yaku(info.tsumo), Yaku::Honrouto, Yaku::Chinitsu, Yaku::Honitsu, Yaku::Tanyao,
        Yaku::Sankantsu, Yaku::Syosangen, Yaku::Chankan, Yaku::Rinshan, Yaku::Haku, Yaku::Hatu, Yaku::Chun,
        Yaku::Bakaze, Yaku::Jikaze];
    assert(rule_yaku(b) =~= yb);
    assert forall|i: int| 0 <= i < s2.1.len() implies !rule_yaku(b).contains(#[trigger] s2.1[i]) by {
        if s1.1.contains(s2.1[i]) {
            let j = choose|j: int| 0 <= j < s1.1.len() && s1.1[j] == s2.1[i];
            assert(ya.contains(s1.1[j]));
        }
    }
    lemma_apply_rules_distinct(s2, b);
    let r = apply_rules(s2, b).1;
    assert forall|i: int| 0 <= i < r.len() implies !division_pattern(#[trigger] r[i]) by {
        if s2.1.contains(r[i]) {
            let j = choose|j: int| 0 <= j < s2.1.len() && s2.1[j] == r[i];
            if s1.1.contains(s2.1[j]) {
                let k = choose|k: int| 0 <= k < s1.1.len() && s1.1[k] == s2.1[j];
                assert(ya.contains(s1.1[k]));
            }
        }
    }
}

/// Thirteen orphans lists each pattern once.
pub proof fn lemma_kokushi_yaku_distinct(info: AgariInformation, cfg: ScoreRuleConfig, c: Seq<int>)
    ensures
        kokushi_yaku_han(info, cfg, c).1.no_duplicates(),
{
    let k13 = kokushi13_spec(info, c);
    let t = heaven_earth_rules(info) + seq![
        (k13, Yaku::Kokushimusou13, if cfg.kokushi13_as_double { 26int } else { 13int }),
        (!k13, Yaku::Kokushimusou, 13int),
    ];
    assert(rule_yaku(t) =~= seq![Yaku::Tenho, Yaku::Chiho, Yaku::Kokushimusou13, Yaku::Kokushimusou]);
    lemma_apply_rules_distinct((0, seq![]), t);
}

/// Seven pairs lists each pattern once.
pub proof fn lemma_chitoitsu_yaku_distinct(info: AgariInformation, cfg: ScoreRuleConfig, c: Seq<int>)
    ensures
        chitoitsu_yaku_han(info, cfg, c).1.no_duplicates(),
{
    let t = heaven_earth_rules(info) + seq![(tsuiso_spec(c), Yaku::Tsuiso, 13int)];
    let yy = seq![Yaku::Tenho, Yaku::Chiho, Yaku::Tsuiso];
    assert(rule_yaku(t) =~= yy);
    lemma_apply_rules_distinct((0, seq![]), t);
    let y = chitoitsu_yakuman(info, c);
    if y.0 < 13 {
        let s0 = (2, y.1.push(Yaku::Chitoitsu));
        assert(!y.1.contains(Yaku::Chitoitsu)) by {
            if y.1.contains(Yaku::Chitoitsu) {
                let i = choose|i: int| 0 <= i < y.1.len() && y.1[i] == Yaku::Chitoitsu;
                assert(yy.contains(y.1[i]));
            }
        }
        assert forall|i: int| 0 <= i < s0.1.len() implies yy.contains(#[trigger] s0.1[i]) || s0.1[i] == Yaku::Chitoitsu by {
            if i < y.1.len() {
                assert(s0.1[i] == y.1[i]);
            }
        }
        let a = chitoitsu_rules_a(info);
        let ya = seq![Yaku::Tsumo, Yaku::Doubleriichi, Yaku::Riichi, Yaku::Ippatsu, haitei_yaku(info.tsumo)];
        assert(rule_yaku(a) =~= ya);
        assert forall|i: int| 0 <= i < s0.1.len() implies !rule_yaku(a).contains(#[trigger] s0.1[i]) by {
            assert(yy.contains(s0.1[i]) || s0.1[i] == Yaku::Chitoitsu);
        }
        lemma_apply_rules_distinct(s0, a);
        let s1 = apply_rules(s0, a);
        assert forall|i: int| 0 <= i < s1.1.len() implies (yy.contains(#[trigger] s1.1[i]) || s1.1[i] == Yaku::Chitoitsu || ya.contains(s1.1[i])) by {
            if s0.1.contains(s1.1[i]) {
                let j = choose|j: int| 0 <= j < s0.1.len() && s0.1[j] == s1.1[i];
                assert(yy.contains(s0.1[j]) || s0.1[j] == Yaku::Chitoitsu);
            }
        }
        lemma_with_dora_distinct(s1, info);
        let s2 = with_dora(s1, info);
        let b = chitoitsu_rules_b(info, cfg, c);
        assert(rule_yaku(b) =~= seq![Yaku::Honrouto, Yaku::Chinitsu, Yaku::Honitsu, Yaku::Tanyao]);
        assert forall|i: int| 0 <= i < s2.1.len() implies !rule_yaku(b).contains(#[trigger] s2.1[i]) by {
            if s1.1.contains(s2.1[i]) {
                let j = choose|j: int| 0 <= j < s1.1.len() && s1.1[j] == s2.1[i];
                assert(yy.contains(s1.1[j]) || s1.1[j] == Yaku::Chitoitsu || ya.contains(s1.1[j]));
            }
        }
        lemma_apply_rules_distinct(s2, b);
    }
}

/// Yakuman read from the whole multiset are listed once each.
pub proof fn lemma_yakuman_yaku_distinct(info: AgariInformation, cfg: ScoreRuleConfig, c: Seq<int>)
    ensures
        yakuman_yaku_han(info, cfg, c).1.no_duplicates(),
{
    let t = yakuman_rules(info, cfg, c);
    assert(rule_yaku(t) =~= seq![Yaku::Tenho, Yaku::Chiho, Yaku::Churenpouton, Yaku::Churenpouton9,
        Yaku::Suankotanki, Yaku::Suanko, Yaku::Ryuiso, Yaku::Chinroto, Yaku::Daisushi, Yaku::Syosushi,
        Yaku::Tsuiso, Yaku::Sukantsu, Yaku::Daisangen]);
    lemma_apply_rules_distinct((0, seq![]), t);
}

} // verus!
