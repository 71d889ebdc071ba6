use mjtools::types::{Tile, TileId};

#[test]
fn test_from_tilestr() {
    assert_eq!(
        TileId::from_tilestr("🀇🀈🀉🀊🀋🀌🀍🀎🀏").unwrap(),
        [
            TileId::Id1man,
            TileId::Id2man,
            TileId::Id3man,
            TileId::Id4man,
            TileId::Id5man,
            TileId::Id6man,
            TileId::Id7man,
            TileId::Id8man,
            TileId::Id9man,
        ]
    );
    assert_eq!(
        TileId::from_tilestr("🀐🀑🀒🀓🀔🀕🀖🀗🀘").unwrap(),
        [
            TileId::Id1sou,
            TileId::Id2sou,
            TileId::Id3sou,
            TileId::Id4sou,
            TileId::Id5sou,
            TileId::Id6sou,
            TileId::Id7sou,
            TileId::Id8sou,
            TileId::Id9sou,
        ]
    );
    assert_eq!(
        TileId::from_tilestr("🀙🀚🀛🀜🀝🀞🀟🀠🀡").unwrap(),
        [
            TileId::Id1pin,
            TileId::Id2pin,
            TileId::Id3pin,
            TileId::Id4pin,
            TileId::Id5pin,
            TileId::Id6pin,
            TileId::Id7pin,
            TileId::Id8pin,
            TileId::Id9pin,
        ]
    );
    assert_eq!(
        TileId::from_tilestr("🀀🀁🀂🀃").unwrap(),
        [TileId::IdTon, TileId::IdNan, TileId::IdSha, TileId::IdPee]
    );
    assert_eq!(
        TileId::from_tilestr("🀆🀅🀄").unwrap(),
        [TileId::IdHaku, TileId::IdHatu, TileId::IdChun]
    );
}

#[test]
#[should_panic]
fn test_from_invalid_char() {
    TileId::from_char('\u{1f022}').unwrap();
}

fn plain(ids: &[TileId]) -> Vec<Tile> {
    ids.iter().map(|&id| Tile { id, aka: false }).collect()
}

#[test]
fn test_from_haifustr() {
    assert_eq!(
        Tile::from_mjscorestr("1m2m3m4m5m6m7m8m9m").unwrap(),
        plain(&[
            TileId::Id1man,
            TileId::Id2man,
            TileId::Id3man,
            TileId::Id4man,
            TileId::Id5man,
            TileId::Id6man,
            TileId::Id7man,
            TileId::Id8man,
            TileId::Id9man,
        ])
    );
    assert_eq!(
        Tile::from_mjscorestr("1s2s3s4s5s6s7s8s9s").unwrap(),
        plain(&[
            TileId::Id1sou,
            TileId::Id2sou,
            TileId::Id3sou,
            TileId::Id4sou,
            TileId::Id5sou,
            TileId::Id6sou,
            TileId::Id7sou,
            TileId::Id8sou,
            TileId::Id9sou,
        ])
    );
    assert_eq!(
        Tile::from_mjscorestr("1p2p3p4p5p6p7p8p9p").unwrap(),
        plain(&[
            TileId::Id1pin,
            TileId::Id2pin,
            TileId::Id3pin,
            TileId::Id4pin,
            TileId::Id5pin,
            TileId::Id6pin,
            TileId::Id7pin,
            TileId::Id8pin,
            TileId::Id9pin,
        ])
    );
    assert_eq!(
        Tile::from_mjscorestr("東南西北").unwrap(),
        plain(&[TileId::IdTon, TileId::IdNan, TileId::IdSha, TileId::IdPee])
    );
    assert_eq!(
        Tile::from_mjscorestr("白発中").unwrap(),
        plain(&[TileId::IdHaku, TileId::IdHatu, TileId::IdChun])
    );
    assert_eq!(
        Tile::from_mjscorestr(&format!("{}{}", "5M5P", "5S")).unwrap(),
        [
            Tile { id: TileId::Id5man, aka: true },
            Tile { id: TileId::Id5pin, aka: true },
            Tile { id: TileId::Id5sou, aka: true },
        ]
    );
}

#[test]
#[should_panic]
fn test_from_invalid_mjscorestr() {
    Tile::from_mjscorestr("發").unwrap();
    Tile::from_mjscorestr("1").unwrap();
}

#[test]
fn rank_without_suit_is_rejected() {
    assert!(Tile::from_mjscorestr("1").is_err());
    assert!(Tile::from_mjscorestr("1x").is_err());
    assert!(Tile::from_mjscorestr("").unwrap().is_empty());
}

#[test]
fn mjscore_round_trip() {
    let tiles = Tile::from_mjscorestr("1m5M9p3s5S5P東南西北白発中").unwrap();
    let text = mjtools::notation::tiles_to_mjscorestr(&tiles);
    assert_eq!(text, "1m5M9p3s5S5P東南西北白発中");
    assert_eq!(Tile::from_mjscorestr(&text).unwrap(), tiles);
}

#[test]
fn tile_to_mjscorestr_writes_rank_and_suit() {
    assert_eq!(Tile { id: TileId::Id5man, aka: true }.to_mjscorestr(), "5M");
    assert_eq!(Tile { id: TileId::Id7sou, aka: false }.to_mjscorestr(), "7s");
    assert_eq!(Tile { id: TileId::IdHatu, aka: false }.to_mjscorestr(), "発");
}

#[test]
fn tile_classification() {
    assert!(TileId::Id1man.is_routou());
    assert!(TileId::Id1man.is_yaochu());
    assert!(!TileId::Id5pin.is_yaochu());
    assert!(TileId::Id5pin.is_chunchan());
    assert!(TileId::IdTon.is_jihai());
    assert!(TileId::IdChun.is_sangen());
    assert!(!TileId::IdTon.is_sangen());
    assert_eq!(TileId::Id7sou.getnumber(), 7);
    assert_eq!(TileId::Id7sou.code(), 27);
    assert_eq!(TileId::Id3pin.nth(2), TileId::Id5pin);
    assert_eq!(TileId::Id3pin.nth(-2), TileId::Id1pin);
    assert_eq!(TileId::IdTon.nth(3), TileId::IdPee);
    assert_eq!(TileId::from_code(10), None);
    assert_eq!(TileId::from_code(37), Some(TileId::IdChun));
}

#[test]
fn tile_counts() {
    let c = mjtools::types::calculate_tile_counts(&[TileId::Id1man, TileId::Id1man, TileId::IdChun]);
    assert_eq!(c.len(), 34);
    assert_eq!(c[0], 2);
    assert_eq!(c[33], 1);
    assert_eq!(c.iter().map(|&x| x as usize).sum::<usize>(), 3);
}
