use mjtools::score::{
    calculate_basic_point, calculate_point, calculate_score, get_rule_config, set_rule_config,
    AgariInformation, Feed, Point, ScoreError, ScoreRuleConfig, Yaku,
};
use mjtools::types::{Dora, Hand, Meld, Tile, TileId, Wind};

fn tiles(s: &str) -> Vec<Tile> {
    Tile::from_mjscorestr(s).unwrap()
}

fn tile(s: &str) -> Tile {
    tiles(s)[0]
}

fn info(hand: &str, win: &str, melds: Vec<Meld>, player: Wind, tsumo: bool) -> AgariInformation {
    AgariInformation {
        wining_tile: tile(win),
        hand: Hand { hand: tiles(hand), melds },
        nhonba: 0,
        nriichi: 0,
        round: Wind::Ton,
        player,
        tsumo,
        riichi: false,
        ippatsu: false,
        doubleriichi: false,
        haitei: false,
        rinshan: false,
        chankan: false,
        nagashimangan: false,
        tenho: false,
        chiho: false,
        dora: Dora { omote: vec![], ura: vec![] },
    }
}

fn rules() -> ScoreRuleConfig {
    get_rule_config()
}

#[test]
fn nine_gates_won_on_a_fourth_nine_is_plain() {
    let i = info("1m1m1m2m3m4m5m6m7m8m9m9m9m", "9m", vec![], Wind::Nan, true);
    let s = calculate_score(&i, &rules()).unwrap();
    assert_eq!(s.yaku, vec![Yaku::Churenpouton]);
    assert!(!s.yaku.contains(&Yaku::Churenpouton9));
    assert_eq!(s.han, 13);
    assert_eq!(s.fu, 0);
    assert_eq!(s.point.feed, Feed::Tsumo { ko: 8000, oya: 16000 });
    assert_eq!(s.point.get, 32000);
}

#[test]
fn nine_gates_nine_sided_double_on_a_simple() {
    let i = info("1m1m1m2m3m4m5m6m7m8m9m9m9m", "5m", vec![], Wind::Nan, true);
    let s = calculate_score(&i, &rules()).unwrap();
    assert_eq!(s.yaku, vec![Yaku::Churenpouton9]);
    assert_eq!(s.han, 26);
}

#[test]
fn nine_gates_basic_form() {
    let i = info("1m1m1m2m3m4m5m6m7m8m9m9m5m", "9m", vec![], Wind::Nan, true);
    let s = calculate_score(&i, &rules()).unwrap();
    assert_eq!(s.yaku, vec![Yaku::Churenpouton]);
    assert_eq!(s.han, 13);
}

#[test]
fn seven_pairs_two_han_twenty_five_fu() {
    let i = info("1m1m4m4m2p2p5p5p3s3s8s8s東", "東", vec![], Wind::Nan, false);
    let s = calculate_score(&i, &rules()).unwrap();
    assert_eq!(s.yaku, vec![Yaku::Chitoitsu]);
    assert_eq!(s.han, 2);
    assert_eq!(s.fu, 25);
    assert_eq!(s.point, Point { get: 1600, feed: Feed::Duck { point: 1600 } });
}

#[test]
fn pinfu_claimed_is_thirty_fu() {
    let i = info("2m3m4m5p6p7p3s4s5s6s7s9p9p", "8s", vec![], Wind::Nan, false);
    let s = calculate_score(&i, &rules()).unwrap();
    assert_eq!(s.yaku, vec![Yaku::Pinfu]);
    assert_eq!(s.han, 1);
    assert_eq!(s.fu, 30);
    assert_eq!(s.point, Point { get: 1000, feed: Feed::Duck { point: 1000 } });
}

#[test]
fn pinfu_self_drawn_is_twenty_fu() {
    let i = info("2m3m4m5p6p7p3s4s5s6s7s9p9p", "8s", vec![], Wind::Nan, true);
    let s = calculate_score(&i, &rules()).unwrap();
    assert!(s.yaku.contains(&Yaku::Pinfu));
    assert!(s.yaku.contains(&Yaku::Tsumo));
    assert_eq!(s.han, 2);
    assert_eq!(s.fu, 20);
    assert_eq!(s.point, Point { get: 1500, feed: Feed::Tsumo { ko: 400, oya: 700 } });
}

#[test]
fn dealer_self_draw_three_han_thirty_fu() {
    let mut i = info("2m3m4m5p6p7p3s4s5s6s7s9p9p", "8s", vec![], Wind::Ton, true);
    let p = calculate_point(&i, 3, 30, &rules());
    assert_eq!(p, Point { get: 6000, feed: Feed::Tsumo { ko: 2000, oya: 0 } });
    i.nhonba = 1;
    i.nriichi = 1;
    let p = calculate_point(&i, 3, 30, &rules());
    assert_eq!(p, Point { get: 7300, feed: Feed::Tsumo { ko: 2100, oya: 0 } });
}

#[test]
fn bonus_counters_worth_1500_by_rule() {
    let mut i = info("2m3m4m5p6p7p3s4s5s6s7s9p9p", "8s", vec![], Wind::Nan, false);
    i.nhonba = 2;
    let mut cfg = rules();
    cfg.ba1500 = true;
    let p = calculate_point(&i, 1, 30, &cfg);
    assert_eq!(p, Point { get: 4000, feed: Feed::Duck { point: 4000 } });
}

#[test]
fn riichi_with_open_meld_is_rejected() {
    let pung = Meld::Pung { tiles: [tile("東"), tile("東"), tile("東")] };
    let mut i = info("2m3m4m5p6p7p3s4s5s9p", "9p", vec![pung], Wind::Nan, false);
    i.riichi = true;
    assert_eq!(calculate_score(&i, &rules()).unwrap_err(), ScoreError::RiichiWithOpenHand);
}

#[test]
fn riichi_and_double_riichi_are_rejected() {
    let mut i = info("2m3m4m5p6p7p3s4s5s6s7s9p9p", "8s", vec![], Wind::Nan, false);
    i.riichi = true;
    i.doubleriichi = true;
    assert_eq!(calculate_score(&i, &rules()).unwrap_err(), ScoreError::RiichiAndDoubleRiichi);
}

#[test]
fn rinshan_without_tsumo_is_rejected() {
    let mut i = info("2m3m4m5p6p7p3s4s5s6s7s9p9p", "8s", vec![], Wind::Nan, false);
    i.rinshan = true;
    assert_eq!(calculate_score(&i, &rules()).unwrap_err(), ScoreError::RinshanWithoutTsumo);
}

#[test]
fn incomplete_hand_is_not_agari() {
    let i = info("2m3m4m5p6p7p3s4s5s6s7s9p9p", "1m", vec![], Wind::Nan, false);
    assert_eq!(calculate_score(&i, &rules()).unwrap_err(), ScoreError::NotAgari);
}

#[test]
fn no_yaku_is_rejected() {
    let chow = Meld::Chow { tiles: [tile("2m"), tile("3m"), tile("4m")] };
    let i = info("5p6p7p3s4s5s6s7s9p9p", "8s", vec![chow], Wind::Nan, false);
    assert_eq!(calculate_score(&i, &rules()).unwrap_err(), ScoreError::NoYaku);
}

#[test]
fn dora_alone_does_not_qualify() {
    let chow = Meld::Chow { tiles: [tile("2m"), tile("3m"), tile("4m")] };
    let mut i = info("5p6p7p3s4s5s6s7s9p9p", "8s", vec![chow], Wind::Nan, false);
    i.dora.omote.push(tile("1m"));
    assert_eq!(calculate_score(&i, &rules()).unwrap_err(), ScoreError::NoYaku);
    // with a pattern, the dora count on top of it
    let pung = Meld::Pung { tiles: [tile("中"), tile("中"), tile("中")] };
    let mut j = info("2m3m4m5p6p7p3s4s5s9p", "9p", vec![pung], Wind::Nan, false);
    j.dora.omote.push(tile("1m"));
    let s = calculate_score(&j, &rules()).unwrap();
    assert_eq!(s.yaku, vec![Yaku::Dora, Yaku::Chun]);
    assert_eq!(s.han, 2);
}

#[test]
fn oversized_hand_is_not_agari() {
    let mut i = info("1m", "1m", vec![], Wind::Nan, false);
    i.hand.hand = vec![tile("5p"); 300];
    assert_eq!(calculate_score(&i, &rules()).unwrap_err(), ScoreError::NotAgari);
}

#[test]
fn malformed_meld_is_rejected() {
    let bad = Meld::Chow { tiles: [tile("2m"), tile("4m"), tile("5m")] };
    let i = info("5p6p7p3s4s5s6s7s9p9p", "8s", vec![bad], Wind::Nan, false);
    assert_eq!(calculate_score(&i, &rules()).unwrap_err(), ScoreError::InvalidMeld);
}

#[test]
fn riichi_tsumo_dora_count() {
    let mut i = info("2m3m4m6p7p3s4s5s6s7s9p9p5P", "8s", vec![], Wind::Nan, true);
    i.riichi = true;
    i.dora.omote.push(tile("8p"));
    let s = calculate_score(&i, &rules()).unwrap();
    assert!(s.yaku.contains(&Yaku::Riichi));
    assert!(s.yaku.contains(&Yaku::Dora));
    // pinfu, tsumo, riichi, and three dora: the red 5p and the two 9p
    assert_eq!(s.han, 1 + 1 + 1 + 3);
}

#[test]
fn many_dora_indicators() {
    let mut i = info("2m3m4m6p7p3s4s5s6s7s9p9p5P", "8s", vec![], Wind::Nan, true);
    i.riichi = true;
    for _ in 0..20 {
        i.dora.omote.push(tile("8p"));
    }
    let s = calculate_score(&i, &rules()).unwrap();
    // pinfu, tsumo, riichi, the red 5p, and two 9p for each of 20 indicators
    assert_eq!(s.han, 3 + 1 + 40);
    assert_eq!(s.point.get, 2 * 8000 + 16000);
}

#[test]
fn thirteen_orphans_thirteen_sided_is_double() {
    let i = info("1m9m1p9p1s9s東南西北白発中", "中", vec![], Wind::Nan, false);
    let s = calculate_score(&i, &rules()).unwrap();
    assert_eq!(s.yaku, vec![Yaku::Kokushimusou13]);
    assert_eq!(s.han, 26);
    let mut cfg = rules();
    cfg.kokushi13_as_double = false;
    let s = calculate_score(&i, &cfg).unwrap();
    assert_eq!(s.han, 13);
    assert_eq!(s.point, Point { get: 32000, feed: Feed::Duck { point: 32000 } });
}

#[test]
fn thirteen_orphans_single_wait() {
    let i = info("1m9m1p9p1s9s東南西北白白中", "発", vec![], Wind::Nan, false);
    let s = calculate_score(&i, &rules()).unwrap();
    assert_eq!(s.yaku, vec![Yaku::Kokushimusou]);
    assert_eq!(s.han, 13);
}

#[test]
fn nagashi_mangan() {
    let mut i = info("1m", "2m", vec![], Wind::Nan, false);
    i.nagashimangan = true;
    let s = calculate_score(&i, &rules()).unwrap();
    assert_eq!(s.yaku, vec![Yaku::Nagashimangan]);
    assert_eq!(s.han, 5);
    assert_eq!(s.point.get, 8000);
}

#[test]
fn best_split_is_chosen() {
    // 111222333m as three triplets (sanankou) or three runs (ipeko lost): the
    // concealed triplets score higher.
    let i = info("1m1m1m2m2m2m3m3m3m4p5p6p9s", "9s", vec![], Wind::Nan, true);
    let s = calculate_score(&i, &rules()).unwrap();
    assert!(s.yaku.contains(&Yaku::Sananko));
    assert!(s.yaku.contains(&Yaku::Tsumo));
}

#[test]
fn value_triplet_and_open_hand() {
    let pung = Meld::Pung { tiles: [tile("中"), tile("中"), tile("中")] };
    let i = info("2m3m4m5p6p7p3s4s5s9p", "9p", vec![pung], Wind::Nan, false);
    let s = calculate_score(&i, &rules()).unwrap();
    assert_eq!(s.yaku, vec![Yaku::Chun]);
    assert_eq!(s.han, 1);
    // 20 base + 4 (open honor triplet) + 2 (pair wait) = 26 -> 30
    assert_eq!(s.fu, 30);
}

#[test]
fn basic_points() {
    let cfg = rules();
    assert_eq!(calculate_basic_point(1, 30, &cfg), 240);
    assert_eq!(calculate_basic_point(3, 30, &cfg), 960);
    assert_eq!(calculate_basic_point(4, 30, &cfg), 1920);
    assert_eq!(calculate_basic_point(4, 40, &cfg), 2000);
    assert_eq!(calculate_basic_point(5, 30, &cfg), 2000);
    assert_eq!(calculate_basic_point(7, 30, &cfg), 3000);
    assert_eq!(calculate_basic_point(10, 30, &cfg), 4000);
    assert_eq!(calculate_basic_point(12, 30, &cfg), 6000);
    assert_eq!(calculate_basic_point(13, 0, &cfg), 8000);
    assert_eq!(calculate_basic_point(14, 0, &cfg), 8000);
    assert_eq!(calculate_basic_point(26, 0, &cfg), 16000);
    assert_eq!(calculate_basic_point(39, 0, &cfg), 24000);
    let mut up = cfg;
    up.mangan_roundup = true;
    assert_eq!(calculate_basic_point(4, 30, &up), 2000);
    assert_eq!(calculate_basic_point(3, 60, &up), 2000);
    assert_eq!(calculate_basic_point(3, 50, &up), 1600);
}

#[test]
fn payments_round_up_to_hundreds() {
    let i = info("2m3m4m5p6p7p3s4s5s6s7s9p9p", "8s", vec![], Wind::Nan, true);
    let p = calculate_point(&i, 1, 30, &rules());
    // basic 240: non-dealers pay 300, the dealer 500
    assert_eq!(p, Point { get: 1100, feed: Feed::Tsumo { ko: 300, oya: 500 } });
    match p.feed {
        Feed::Tsumo { ko, oya } => {
            assert_eq!(ko % 100, 0);
            assert_eq!(oya % 100, 0);
        }
        Feed::Duck { .. } => panic!("expected a self-draw payment"),
    }
}

#[test]
fn rule_config_default_and_replace() {
    let d = get_rule_config();
    assert!(d.kuitan && d.kokushi13_as_double && d.suankotanki_as_double && d.nagashimangan);
    assert!(!d.ba1500 && !d.mangan_roundup);
    let mut held = d;
    let mut next = d;
    next.kuitan = false;
    set_rule_config(&mut held, &next);
    assert_eq!(held, next);
}

#[test]
fn hand_queries() {
    let ankan = Meld::Ankan { tiles: [tile("1m"), tile("1m"), tile("1m"), tile("1m")] };
    let pung = Meld::Pung { tiles: [tile("東"), tile("東"), tile("東")] };
    let h = Hand { hand: tiles("2m3m4m"), melds: vec![ankan] };
    assert!(h.is_menzen());
    assert_eq!(h.num_kan(), 1);
    assert_eq!(h.marged_tiles().len(), 7);
    let h2 = Hand { hand: tiles("2m3m4m"), melds: vec![ankan, pung] };
    assert!(!h2.is_menzen());
    assert_eq!(h2.marged_tiles()[3..7], [TileId::Id1man; 4]);
    assert_eq!(h2.marged_tiles()[7], TileId::IdTon);
}
