use mjtools::shanten::{
    calculate_chitoitsu_shanten, calculate_kokushimusou_shanten, calculate_normal_shanten,
    calculate_shanten, listup_chitoitsu_effective_tiles, listup_effective_tiles,
    listup_kokushimusou_effective_tiles, listup_normal_effective_tiles, ShantenError,
};
use mjtools::types::{Tile, TileId};

fn ids(s: &str) -> Vec<TileId> {
    Tile::from_mjscorestr(s).unwrap().into_iter().map(|t| t.id).collect()
}

#[test]
fn test_effective_tiles() {
    struct TestCase(&'static str, &'static str);
    let normal_tests = [
        TestCase("🀉🀊🀋🀏🀑🀒🀔🀔🀔🀕🀖🀅🀅", "🀐🀓🀔🀗🀅"),
        TestCase("🀇🀎🀎🀛🀛🀜🀞🀟🀠🀡🀐🀐🀒", "🀎🀛🀝🀐🀑"),
        TestCase("🀈🀊🀌🀎🀚🀚🀡🀑🀒🀓🀔🀖🀆", "🀉🀍🀕"),
        TestCase("🀈🀊🀌🀎🀚🀚🀝🀑🀒🀓🀔🀖🀆", "🀉🀍🀕"),
        TestCase("🀈🀊🀌🀎🀚🀚🀝🀡🀑🀒🀓🀔🀖", "🀉🀍🀕"),
    ];
    let chitoitsu_tests = [
        TestCase("🀊🀊🀙🀜🀐🀒🀒🀔🀔🀖🀗🀀🀂", "🀙🀜🀐🀖🀗🀀🀂"),
        TestCase("🀉🀉🀍🀏🀏🀛🀜🀜🀐🀑🀑🀔🀂", "🀍🀛🀐🀔🀂"),
        TestCase("🀚🀝🀝🀞🀞🀡🀐🀓🀗🀘🀘🀂🀆", "🀚🀡🀐🀓🀗🀂🀆"),
        TestCase("🀝🀝🀝🀞🀞🀡🀐🀓🀗🀘🀘🀂🀆", "🀡🀐🀓🀗🀂🀆"),
    ];
    let kokushimusou_tests = [
        TestCase("🀇🀏🀙🀡🀐🀘🀀🀁🀂🀃🀆🀅🀄", "🀇🀏🀙🀡🀐🀘🀀🀁🀂🀃🀆🀅🀄"),
        TestCase("🀇🀏🀙🀜🀠🀠🀐🀖🀗🀀🀂🀆🀆", "🀡🀘🀁🀃🀅🀄"),
    ];

    for case in normal_tests {
        assert_eq!(
            listup_normal_effective_tiles(TileId::from_tilestr(case.0).unwrap().as_slice()).unwrap(),
            TileId::from_tilestr(case.1).unwrap()
        );
    }

    for case in chitoitsu_tests {
        assert_eq!(
            listup_chitoitsu_effective_tiles(TileId::from_tilestr(case.0).unwrap().as_slice()).unwrap(),
            TileId::from_tilestr(case.1).unwrap()
        );
    }

    for case in kokushimusou_tests {
        assert_eq!(
            listup_kokushimusou_effective_tiles(TileId::from_tilestr(case.0).unwrap().as_slice())
                .unwrap(),
            TileId::from_tilestr(case.1).unwrap()
        );
    }
}

#[test]
fn complete_standard_hand_is_minus_one() {
    let t = ids("1m2m3m4p5p6p7s8s9s東東東白白");
    assert_eq!(calculate_normal_shanten(&t), -1);
    assert_eq!(calculate_shanten(&t), -1);
}

#[test]
fn complete_seven_pairs_is_minus_one() {
    let t = ids("1m1m4m4m2p2p5p5p3s3s8s8s東東");
    assert_eq!(calculate_chitoitsu_shanten(&t), -1);
    assert_eq!(calculate_shanten(&t), -1);
    // as a standard hand: a head and six pairs, of which four count
    assert_eq!(calculate_normal_shanten(&t), 3);
}

#[test]
fn complete_thirteen_orphans_is_minus_one() {
    let t = ids("1m9m1p9p1s9s東南西北白発中中");
    assert_eq!(calculate_kokushimusou_shanten(&t), -1);
    assert_eq!(calculate_shanten(&t), -1);
}

#[test]
fn incomplete_hand_is_not_minus_one() {
    let t = ids("1m2m4m4p5p6p7s8s9s東東東白発");
    assert!(calculate_shanten(&t) >= 0);
    let tenpai = ids("1m2m3m4p5p6p7s8s9s東東東白");
    assert_eq!(calculate_shanten(&tenpai), 0);
}

#[test]
fn seven_pairs_counts_a_triplet_against_progress() {
    let t = ids("1m1m1m2m2m3m3m4m4m5m5m6m6m");
    // six pairs over six kinds: 6 - 6 + (7 - 6)
    assert_eq!(calculate_chitoitsu_shanten(&t), 1);
    let four = ids("1m1m1m1m2m2m3m3m4m4m5m5m6m");
    // five pairs over six kinds: 6 - 5 + (7 - 6)
    assert_eq!(calculate_chitoitsu_shanten(&four), 2);
}

#[test]
fn thirteen_orphans_formula() {
    let t = ids("1m1m2m3m4m5m6m7m8m9m1p2p3p");
    assert_eq!(calculate_kokushimusou_shanten(&t), 13 - 3 - 1);
}

#[test]
fn effective_tiles_reject_wrong_sizes() {
    assert_eq!(listup_effective_tiles(&[]), Err(ShantenError::InvalidTileCount));
    let fourteen = ids("1m2m3m4p5p6p7s8s9s東東東白白");
    assert_eq!(listup_effective_tiles(&fourteen), Err(ShantenError::InvalidTileCount));
    let twelve = ids("1m2m3m4p5p6p7s8s9s東東東");
    assert_eq!(listup_normal_effective_tiles(&twelve), Err(ShantenError::InvalidTileCount));
    assert!(listup_normal_effective_tiles(&ids("1m")).is_ok());
}

#[test]
fn effective_tiles_are_sorted_and_lower_shanten() {
    let hand = ids("1m2m4m4p5p6p7s8s9s東東白発");
    let eff = listup_effective_tiles(&hand).unwrap();
    assert!(!eff.is_empty());
    let current = calculate_shanten(&hand);
    for w in eff.windows(2) {
        assert!(w[0] < w[1]);
    }
    for &k in &eff {
        let mut h = hand.clone();
        h.push(k);
        assert!(calculate_shanten(&h) < current);
    }
    let mut reordered = hand.clone();
    reordered.reverse();
    assert_eq!(listup_effective_tiles(&reordered).unwrap(), eff);
}

#[test]
fn single_tile_takes_any_neighbour() {
    assert_eq!(
        listup_normal_effective_tiles(&ids("5p")).unwrap(),
        vec![TileId::Id3pin, TileId::Id4pin, TileId::Id5pin, TileId::Id6pin, TileId::Id7pin]
    );
}
