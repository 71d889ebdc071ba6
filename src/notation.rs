//! Text notations for tiles: the Unicode Mahjong block, and the compact
//! rank-and-suit notation (`1m`, `5P`, `東`).
use vstd::prelude::*;
use crate::types::{kind_at, honor_idx, suited_idx, rank_idx, Tile, TileId, NUM_SUITED};

verus! {

/// Error of a tile text that cannot be read.
#[derive(PartialEq, Eq, Structural, Clone, Copy, Debug)]
pub enum ParseError {
    /// A character that names no tile, or a rank without its suit letter.
    InvalidChar,
}

/// Kind named by a character of the Unicode Mahjong block.
pub open spec fn unicode_kind(c: char) -> Option<TileId> {
    let u = (c as u32) as int - 0x1F000;
    if 0 <= u <= 3 {
        Some(kind_at(27 + u))
    } else if u == 4 {
        Some(TileId::IdChun)
    } else if u == 5 {
        Some(TileId::IdHatu)
    } else if u == 6 {
        Some(TileId::IdHaku)
    } else if 7 <= u <= 15 {
        Some(kind_at(u - 7))
    } else if 16 <= u <= 24 {
        Some(kind_at(u + 2))
    } else if 25 <= u <= 33 {
        Some(kind_at(u - 16))
    } else {
        None
    }
}

/// Every character of `s` names a kind.
pub open spec fn unicode_readable(s: Seq<char>) -> bool {
    forall|i: int| 0 <= i < s.len() ==> unicode_kind(#[trigger] s[i]) is Some
}

impl TileId {
    /// Reads a character of the Unicode Mahjong block.
    pub fn from_char(c: char) -> (r: Result<TileId, ParseError>)
        ensures
            r is Ok <==> unicode_kind(c) is Some,
            r is Ok ==> Some(r->Ok_0) == unicode_kind(c),
    {
        let u = c as u32;
        if u < 0x1F000 || u > 0x1F021 {
            return Err(ParseError::InvalidChar);
        }
        let v = (u - 0x1F000) as usize;
        if v <= 3 {
            Ok(TileId::from_index(27 + v))
        } else if v == 4 {
            Ok(TileId::IdChun)
        } else if v == 5 {
            Ok(TileId::IdHatu)
        } else if v == 6 {
            Ok(TileId::IdHaku)
        } else if v <= 15 {
            Ok(TileId::from_index(v - 7))
        } else if v <= 24 {
            Ok(TileId::from_index(v + 2))
        } else {
            Ok(TileId::from_index(v - 16))
        }
    }

    /// Reads a string of Unicode Mahjong characters.
    pub fn from_tilestr(s: &str) -> (r: Result<Vec<TileId>, ParseError>)
        ensures
            r is Ok <==> unicode_readable(s@),
            r is Ok ==> r->Ok_0@.len() == s@.len() && forall|i: int|
                0 <= i < s@.len() ==> Some(#[trigger] r->Ok_0@[i]) == unicode_kind(s@[i]),
    {
        let n = s.unicode_len();
        let mut tiles: Vec<TileId> = Vec::new();
        let mut i: usize = 0;
        while i < n
            invariant
                n == s@.len(),
                i <= n,
                tiles@.len() == i,
                forall|j: int| 0 <= j < i ==> Some(#[trigger] tiles@[j]) == unicode_kind(s@[j]),
            decreases n - i,
        {
            let c = s.get_char(i);
            match TileId::from_char(c) {
                Ok(t) => {
                    tiles.push(t);
                },
                Err(e) => {
                    return Err(e);
                },
            }
            i = i + 1;
        }
        assert forall|j: int| 0 <= j < s@.len() implies unicode_kind(#[trigger] s@[j]) is Some by {
            assert(Some(tiles@[j]) == unicode_kind(s@[j]));
        }
        Ok(tiles)
    }
}


/// A rank digit `1` to `9`.
pub open spec fn rank_char(c: char) -> bool {
    0x31 <= (c as u32) <= 0x39
}

/// First kind position of the suit named by a suit letter (either case).
pub open spec fn suit_base(l: char) -> Option<int> {
    if l == 'm' || l == 'M' {
        Some(0)
    } else if l == 'p' || l == 'P' {
        Some(9)
    } else if l == 's' || l == 'S' {
        Some(18)
    } else {
        None
    }
}

/// An upper-case suit letter marks a red tile.
pub open spec fn upper_suit(l: char) -> bool {
    l == 'M' || l == 'P' || l == 'S'
}

/// Honor named by its ideograph.
pub open spec fn honor_of_char(c: char) -> Option<TileId> {
    if c == '東' {
        Some(TileId::IdTon)
    } else if c == '南' {
        Some(TileId::IdNan)
    } else if c == '西' {
        Some(TileId::IdSha)
    } else if c == '北' {
        Some(TileId::IdPee)
    } else if c == '白' {
        Some(TileId::IdHaku)
    } else if c == '発' {
        Some(TileId::IdHatu)
    } else if c == '中' {
        Some(TileId::IdChun)
    } else {
        None
    }
}

/// The tiles that a text in rank-and-suit notation names, if it is readable.
pub open spec fn parse_mjscore(s: Seq<char>) -> Option<Seq<Tile>>
    decreases s.len(),
{
    if s.len() == 0 {
        Some(seq![])
    } else if rank_char(s[0]) {
        if s.len() >= 2 && suit_base(s[1]) is Some {
            let t = Tile {
                id: kind_at(suit_base(s[1])->0 + (s[0] as u32) as int - 0x31),
                aka: upper_suit(s[1]),
            };
            match parse_mjscore(s.skip(2)) {
                Some(rest) => Some(seq![t] + rest),
                None => None,
            }
        } else {
            None
        }
    } else if honor_of_char(s[0]) is Some {
        let t = Tile { id: honor_of_char(s[0])->0, aka: false };
        match parse_mjscore(s.skip(1)) {
            Some(rest) => Some(seq![t] + rest),
            None => None,
        }
    } else {
        None
    }
}

/// `a` followed by what `o` holds, if it holds anything.
pub open spec fn prepend(a: Seq<Tile>, o: Option<Seq<Tile>>) -> Option<Seq<Tile>> {
    match o {
        Some(x) => Some(a + x),
        None => None,
    }
}

/// The digit of a rank.
pub open spec fn rank_digit(r: int) -> char {
    if r <= 1 {
        '1'
    } else if r == 2 {
        '2'
    } else if r == 3 {
        '3'
    } else if r == 4 {
        '4'
    } else if r == 5 {
        '5'
    } else if r == 6 {
        '6'
    } else if r == 7 {
        '7'
    } else if r == 8 {
        '8'
    } else {
        '9'
    }
}

/// The letter of a suit (0, 1, 2), upper case for a red tile.
pub open spec fn suit_letter(suit: int, aka: bool) -> char {
    if suit == 0 {
        if aka { 'M' } else { 'm' }
    } else if suit == 1 {
        if aka { 'P' } else { 'p' }
    } else {
        if aka { 'S' } else { 's' }
    }
}

/// The ideograph of an honor.
pub open spec fn honor_char(k: TileId) -> char {
    match k {
        TileId::IdTon => '東',
        TileId::IdNan => '南',
        TileId::IdSha => '西',
        TileId::IdPee => '北',
        TileId::IdHaku => '白',
        TileId::IdHatu => '発',
        _ => '中',
    }
}

/// A tile in rank-and-suit notation.
pub open spec fn encode_tile(t: Tile) -> Seq<char> {
    let i = t.id.idx();
    if suited_idx(i) {
        seq![rank_digit(rank_idx(i)), suit_letter(i / 9, t.aka)]
    } else {
        seq![honor_char(t.id)]
    }
}

/// Tiles in rank-and-suit notation, one after another.
pub open spec fn encode_tiles(ts: Seq<Tile>) -> Seq<char>
    decreases ts.len(),
{
    if ts.len() == 0 {
        seq![]
    } else {
        encode_tiles(ts.drop_last()) + encode_tile(ts.last())
    }
}

/// A tile that the notation can write: honors are never red.
pub open spec fn encodable(t: Tile) -> bool {
    honor_idx(t.id.idx()) ==> !t.aka
}

/// Relies on `String::push`: the character is appended at the end.
#[verifier::external_body]
fn push_char(s: &mut String, c: char)
    ensures
        final(s)@ == old(s)@.push(c),
{
    s.push(c);
}

impl Tile {
    /// Reads a text in rank-and-suit notation: a rank digit followed by a suit
    /// letter (`m`, `p`, `s`; upper case for a red tile), or an honor ideograph.
    pub fn from_mjscorestr(s: &str) -> (r: Result<Vec<Tile>, ParseError>)
        ensures
            r is Ok <==> parse_mjscore(s@) is Some,
            r is Ok ==> r->Ok_0@ == parse_mjscore(s@)->0,
    {
        let n = s.unicode_len();
        let mut tiles: Vec<Tile> = Vec::new();
        let mut i: usize = 0;
        proof {
            assert(s@.skip(0) =~= s@);
            assert(tiles@ + seq![] =~= tiles@);
        }
        while i < n
            invariant
                n == s@.len(),
                i <= n,
                parse_mjscore(s@) == prepend(tiles@, parse_mjscore(s@.skip(i as int))),
            decreases n - i,
        {
            let ghost rest = s@.skip(i as int);
            let c = s.get_char(i);
            assert(rest[0] == c);
            let u = c as u32;
            if 0x31 <= u && u <= 0x39 {
                if i + 1 >= n {
                    return Err(ParseError::InvalidChar);
                }
                let l = s.get_char(i + 1);
                assert(rest[1] == l);
                let base: usize = if l == 'm' || l == 'M' {
                    0
                } else if l == 'p' || l == 'P' {
                    9
                } else if l == 's' || l == 'S' {
                    18
                } else {
                    return Err(ParseError::InvalidChar);
                };
                let t = Tile {
                    id: TileId::from_index(base + (u - 0x31) as usize),
                    aka: l == 'M' || l == 'P' || l == 'S',
                };
                proof {
                    assert(rest.skip(2) =~= s@.skip(i as int + 2));
                    assert(tiles@.push(t) =~= tiles@ + seq![t]);
                    match parse_mjscore(rest.skip(2)) {
                        Some(x) => {
                            assert(tiles@ + (seq![t] + x) =~= tiles@.push(t) + x);
                        },
                        None => {},
                    }
                }
                tiles.push(t);
                i = i + 2;
            } else {
                let h = if c == '東' {
                    TileId::IdTon
                } else if c == '南' {
                    TileId::IdNan
                } else if c == '西' {
                    TileId::IdSha
                } else if c == '北' {
                    TileId::IdPee
                } else if c == '白' {
                    TileId::IdHaku
                } else if c == '発' {
                    TileId::IdHatu
                } else if c == '中' {
                    TileId::IdChun
                } else {
                    return Err(ParseError::InvalidChar);
                };
                let t = Tile { id: h, aka: false };
                proof {
                    assert(rest.skip(1) =~= s@.skip(i as int + 1));
                    match parse_mjscore(rest.skip(1)) {
                        Some(x) => {
                            assert(tiles@ + (seq![t] + x) =~= tiles@.push(t) + x);
                        },
                        None => {},
                    }
                }
                tiles.push(t);
                i = i + 1;
            }
        }
        proof {
            assert(s@.skip(i as int) =~= Seq::<char>::empty());
            assert(tiles@ + seq![] =~= tiles@);
        }
        Ok(tiles)
    }

    /// Writes the tile in rank-and-suit notation (honors as ideographs).
    pub fn to_mjscorestr(&self) -> (r: String)
        ensures
            r@ == encode_tile(*self),
    {
        let mut r = String::new();
        push_tile(&mut r, self);
        r
    }
}

fn push_tile(r: &mut String, t: &Tile)
    ensures
        final(r)@ == old(r)@ + encode_tile(*t),
{
    let i = t.id.index();
    if i < NUM_SUITED {
        let d = match i % 9 {
            0 => '1',
            1 => '2',
            2 => '3',
            3 => '4',
            4 => '5',
            5 => '6',
            6 => '7',
            7 => '8',
            _ => '9',
        };
        let l = if i / 9 == 0 {
            if t.aka { 'M' } else { 'm' }
        } else if i / 9 == 1 {
            if t.aka { 'P' } else { 'p' }
        } else {
            if t.aka { 'S' } else { 's' }
        };
        push_char(r, d);
        push_char(r, l);
    } else {
        let h = match t.id {
            TileId::IdTon => '東',
            TileId::IdNan => '南',
            TileId::IdSha => '西',
            TileId::IdPee => '北',
            TileId::IdHaku => '白',
            TileId::IdHatu => '発',
            _ => '中',
        };
        push_char(r, h);
    }
    assert(final(r)@ =~= old(r)@ + encode_tile(*t));
}

/// Writes tiles in rank-and-suit notation, one after another.
pub fn tiles_to_mjscorestr(tiles: &[Tile]) -> (r: String)
    ensures
        r@ == encode_tiles(tiles@),
{
    let mut r = String::new();
    let mut i: usize = 0;
    while i < tiles.len()
        invariant
            i <= tiles@.len(),
            r@ == encode_tiles(tiles@.take(i as int)),
        decreases tiles@.len() - i,
    {
        proof {
            assert(tiles@.take(i as int + 1).drop_last() =~= tiles@.take(i as int));
        }
        push_tile(&mut r, &tiles[i]);
        i = i + 1;
    }
    proof {
        assert(tiles@.take(i as int) =~= tiles@);
    }
    r
}

/// Writing one more tile in front writes its text in front.
pub proof fn lemma_encode_tiles_front(t: Tile, ts: Seq<Tile>)
    ensures
        encode_tiles(seq![t] + ts) == encode_tile(t) + encode_tiles(ts),
    decreases ts.len(),
{
    if ts.len() == 0 {
        assert(seq![t] + ts =~= seq![t]);
        assert(seq![t].drop_last() =~= Seq::<Tile>::empty());
        assert(encode_tile(t) + encode_tiles(ts) =~= encode_tile(t));
        assert(encode_tiles(seq![t]) =~= encode_tiles(Seq::<Tile>::empty()) + encode_tile(t));
    } else {
        lemma_encode_tiles_front(t, ts.drop_last());
        assert((seq![t] + ts).drop_last() =~= seq![t] + ts.drop_last());
        assert(encode_tiles(seq![t] + ts) =~= encode_tile(t) + encode_tiles(ts));
    }
}

/// Reading back what was written gives the same tiles, red flags included.
pub proof fn lemma_mjscore_round_trip(ts: Seq<Tile>)
    requires
        forall|i: int| 0 <= i < ts.len() ==> encodable(#[trigger] ts[i]),
    ensures
        parse_mjscore(encode_tiles(ts)) == Some(ts),
    decreases ts.len(),
{
    if ts.len() == 0 {
        assert(encode_tiles(ts) =~= Seq::<char>::empty());
    } else {
        let t = ts[0];
        let tail = ts.skip(1);
        assert(ts =~= seq![t] + tail);
        assert(encodable(ts[0]));
        assert forall|i: int| 0 <= i < tail.len() implies encodable(#[trigger] tail[i]) by {
            assert(tail[i] == ts[i + 1]);
        }
        lemma_mjscore_round_trip(tail);
        lemma_encode_tiles_front(t, tail);
        let e = encode_tile(t);
        let s = e + encode_tiles(tail);
        assert(s.skip(e.len() as int) =~= encode_tiles(tail));
        let i = t.id.idx();
        if suited_idx(i) {
            assert(s[0] == rank_digit(rank_idx(i)));
            assert(s[1] == suit_letter(i / 9, t.aka));
            assert(kind_at(i).idx() == i);
        } else {
            assert(s[0] == honor_char(t.id));
        }
        assert(seq![t] + tail =~= ts);
    }
}


/// The character of the Unicode Mahjong block that names a kind.
pub open spec fn unicode_char(k: TileId) -> char {
    match k {
        TileId::IdTon => '\u{1f000}',
        TileId::IdNan => '\u{1f001}',
        TileId::IdSha => '\u{1f002}',
        TileId::IdPee => '\u{1f003}',
        TileId::IdChun => '\u{1f004}',
        TileId::IdHatu => '\u{1f005}',
        TileId::IdHaku => '\u{1f006}',
        TileId::Id1man => '\u{1f007}',
        TileId::Id2man => '\u{1f008}',
        TileId::Id3man => '\u{1f009}',
        TileId::Id4man => '\u{1f00a}',
        TileId::Id5man => '\u{1f00b}',
        TileId::Id6man => '\u{1f00c}',
        TileId::Id7man => '\u{1f00d}',
        TileId::Id8man => '\u{1f00e}',
        TileId::Id9man => '\u{1f00f}',
        TileId::Id1sou => '\u{1f010}',
        TileId::Id2sou => '\u{1f011}',
        TileId::Id3sou => '\u{1f012}',
        TileId::Id4sou => '\u{1f013}',
        TileId::Id5sou => '\u{1f014}',
        TileId::Id6sou => '\u{1f015}',
        TileId::Id7sou => '\u{1f016}',
        TileId::Id8sou => '\u{1f017}',
        TileId::Id9sou => '\u{1f018}',
        TileId::Id1pin => '\u{1f019}',
        TileId::Id2pin => '\u{1f01a}',
        TileId::Id3pin => '\u{1f01b}',
        TileId::Id4pin => '\u{1f01c}',
        TileId::Id5pin => '\u{1f01d}',
        TileId::Id6pin => '\u{1f01e}',
        TileId::Id7pin => '\u{1f01f}',
        TileId::Id8pin => '\u{1f020}',
        TileId::Id9pin => '\u{1f021}',
    }
}

/// Each kind's character reads back as that kind.
pub proof fn lemma_unicode_char(k: TileId)
    ensures
        unicode_kind(unicode_char(k)) == Some(k),
{
}

/// Kinds written as Unicode Mahjong characters.
pub open spec fn unicode_text(ids: Seq<TileId>) -> Seq<char> {
    ids.map_values(|k: TileId| unicode_char(k))
}

/// Writing kinds as Unicode characters and reading them back gives the same
/// kinds in the same order.
pub proof fn lemma_unicode_round_trip(ids: Seq<TileId>)
    ensures
        unicode_text(ids).len() == ids.len(),
        unicode_readable(unicode_text(ids)),
        forall|i: int| 0 <= i < ids.len() ==> unicode_kind(#[trigger] unicode_text(ids)[i]) == Some(ids[i]),
{
    let s = unicode_text(ids);
    assert forall|i: int| 0 <= i < ids.len() implies unicode_kind(#[trigger] s[i]) == Some(ids[i]) by {
        lemma_unicode_char(ids[i]);
    }
}

} // verus!
