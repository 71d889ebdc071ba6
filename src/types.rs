//! Tiles, melds and hands, and multiset counting over the 34 tile kinds.
use vstd::prelude::*;
use vstd::multiset::Multiset;
use counter::Counter;

verus! {

/// Number of distinct tile kinds: three suits of nine ranks and seven honors.
pub const NUM_KINDS: usize = 34;

/// Number of suited kinds (three suits of nine ranks).
pub const NUM_SUITED: usize = 27;

/// Largest number of tiles a counted hand may hold (a count must fit in a byte).
pub const MAX_TILES: usize = 255;

/// Suit of a numbered tile.
#[derive(PartialEq, Eq, Structural, Clone, Copy, Debug)]
pub enum TileType {
    /// Characters.
    MANZU,
    /// Circles.
    PINZU,
    /// Bamboos.
    SOUZU,
}

/// The 34 tile kinds, in their natural order.
#[derive(Copy, Clone, PartialEq, Eq, Structural, Hash, Debug, PartialOrd, Ord)]
pub enum TileId {
    Id1man,
    Id2man,
    Id3man,
    Id4man,
    Id5man,
    Id6man,
    Id7man,
    Id8man,
    Id9man,
    Id1pin,
    Id2pin,
    Id3pin,
    Id4pin,
    Id5pin,
    Id6pin,
    Id7pin,
    Id8pin,
    Id9pin,
    Id1sou,
    Id2sou,
    Id3sou,
    Id4sou,
    Id5sou,
    Id6sou,
    Id7sou,
    Id8sou,
    Id9sou,
    /// East wind.
    IdTon,
    /// South wind.
    IdNan,
    /// West wind.
    IdSha,
    /// North wind.
    IdPee,
    /// White dragon.
    IdHaku,
    /// Green dragon.
    IdHatu,
    /// Red dragon.
    IdChun,
}

/// A tile: its kind and whether it is a red bonus tile.
#[derive(Clone, Copy, Debug, PartialEq, Eq, Structural)]
pub struct Tile {
    pub id: TileId,
    pub aka: bool,
}

/// A wind (round or seat).
#[derive(PartialEq, Eq, Structural, Clone, Copy, Debug)]
pub enum Wind {
    Ton,
    Nan,
    Sha,
    Pee,
}

/// A called (or concealed-quad) meld.
#[allow(inconsistent_fields)]
#[derive(Clone, Copy, Debug)]
pub enum Meld {
    /// Claimed triplet.
    Pung { tiles: [Tile; 3] },
    /// Claimed run, lowest tile first.
    Chow { tiles: [Tile; 3] },
    /// Concealed quad.
    Ankan { tiles: [Tile; 4] },
    /// Open quad from a discard.
    Minkan { tiles: [Tile; 4] },
    /// Quad added to a claimed triplet.
    Kakan { tiles: [Tile; 4] },
}

/// A hand: its concealed tiles and its melds.
pub struct Hand {
    pub hand: Vec<Tile>,
    pub melds: Vec<Meld>,
}

/// Dora indicators.
pub struct Dora {
    /// Visible indicators.
    pub omote: Vec<Tile>,
    /// Hidden indicators, revealed after a riichi win.
    pub ura: Vec<Tile>,
}

/// The kind at position `i` of the natural order.
pub open spec fn kind_at(i: int) -> TileId {
    if i <= 0 { TileId::Id1man }
    else if i == 1 { TileId::Id2man }
    else if i == 2 { TileId::Id3man }
    else if i == 3 { TileId::Id4man }
    else if i == 4 { TileId::Id5man }
    else if i == 5 { TileId::Id6man }
    else if i == 6 { TileId::Id7man }
    else if i == 7 { TileId::Id8man }
    else if i == 8 { TileId::Id9man }
    else if i == 9 { TileId::Id1pin }
    else if i == 10 { TileId::Id2pin }
    else if i == 11 { TileId::Id3pin }
    else if i == 12 { TileId::Id4pin }
    else if i == 13 { TileId::Id5pin }
    else if i == 14 { TileId::Id6pin }
    else if i == 15 { TileId::Id7pin }
    else if i == 16 { TileId::Id8pin }
    else if i == 17 { TileId::Id9pin }
    else if i == 18 { TileId::Id1sou }
    else if i == 19 { TileId::Id2sou }
    else if i == 20 { TileId::Id3sou }
    else if i == 21 { TileId::Id4sou }
    else if i == 22 { TileId::Id5sou }
    else if i == 23 { TileId::Id6sou }
    else if i == 24 { TileId::Id7sou }
    else if i == 25 { TileId::Id8sou }
    else if i == 26 { TileId::Id9sou }
    else if i == 27 { TileId::IdTon }
    else if i == 28 { TileId::IdNan }
    else if i == 29 { TileId::IdSha }
    else if i == 30 { TileId::IdPee }
    else if i == 31 { TileId::IdHaku }
    else if i == 32 { TileId::IdHatu }
    else { TileId::IdChun }
}

/// Suited kinds sit below 27 in the natural order.
pub open spec fn suited_idx(i: int) -> bool {
    0 <= i < 27
}

/// Honor kinds sit from 27 to 33.
pub open spec fn honor_idx(i: int) -> bool {
    27 <= i < 34
}

/// Rank (1 to 9) of a suited kind.
pub open spec fn rank_idx(i: int) -> int {
    i % 9 + 1
}

/// Suited kind of rank 2 to 8.
pub open spec fn simple_idx(i: int) -> bool {
    suited_idx(i) && 2 <= rank_idx(i) <= 8
}

/// Suited kind of rank 1 or 9.
pub open spec fn terminal_idx(i: int) -> bool {
    suited_idx(i) && (rank_idx(i) == 1 || rank_idx(i) == 9)
}

/// Terminal or honor.
pub open spec fn yaochu_idx(i: int) -> bool {
    terminal_idx(i) || honor_idx(i)
}

/// Dragon kinds.
pub open spec fn dragon_idx(i: int) -> bool {
    31 <= i < 34
}

/// Numeric code of a kind: ten times the suit plus the rank, honors from 31 to 37.
pub open spec fn code_of_idx(i: int) -> int {
    if i < 27 { (i / 9) * 10 + i % 9 + 1 } else { i + 4 }
}

/// Whether `c` is the code of some kind.
pub open spec fn valid_code(c: int) -> bool {
    (1 <= c <= 9) || (11 <= c <= 19) || (21 <= c <= 29) || (31 <= c <= 37)
}

/// Position in the natural order of the kind with code `c`.
pub open spec fn idx_of_code(c: int) -> int {
    if c < 31 { (c / 10) * 9 + c % 10 - 1 } else { c - 4 }
}

impl TileId {
    /// Position of the kind in the natural order (0 to 33).
    pub open spec fn idx(self) -> int {
        match self {
            TileId::Id1man => 0,
            TileId::Id2man => 1,
            TileId::Id3man => 2,
            TileId::Id4man => 3,
            TileId::Id5man => 4,
            TileId::Id6man => 5,
            TileId::Id7man => 6,
            TileId::Id8man => 7,
            TileId::Id9man => 8,
            TileId::Id1pin => 9,
            TileId::Id2pin => 10,
            TileId::Id3pin => 11,
            TileId::Id4pin => 12,
            TileId::Id5pin => 13,
            TileId::Id6pin => 14,
            TileId::Id7pin => 15,
            TileId::Id8pin => 16,
            TileId::Id9pin => 17,
            TileId::Id1sou => 18,
            TileId::Id2sou => 19,
            TileId::Id3sou => 20,
            TileId::Id4sou => 21,
            TileId::Id5sou => 22,
            TileId::Id6sou => 23,
            TileId::Id7sou => 24,
            TileId::Id8sou => 25,
            TileId::Id9sou => 26,
            TileId::IdTon => 27,
            TileId::IdNan => 28,
            TileId::IdSha => 29,
            TileId::IdPee => 30,
            TileId::IdHaku => 31,
            TileId::IdHatu => 32,
            TileId::IdChun => 33,
        }
    }

    /// Numeric code of the kind.
    pub open spec fn spec_code(self) -> int {
        code_of_idx(self.idx())
    }

    /// Position of the kind in the natural order (0 to 33).
    pub fn index(&self) -> (r: usize)
        ensures
            r as int == self.idx(),
            r < NUM_KINDS,
    {
        match self {
            TileId::Id1man => 0,
            TileId::Id2man => 1,
            TileId::Id3man => 2,
            TileId::Id4man => 3,
            TileId::Id5man => 4,
            TileId::Id6man => 5,
            TileId::Id7man => 6,
            TileId::Id8man => 7,
            TileId::Id9man => 8,
            TileId::Id1pin => 9,
            TileId::Id2pin => 10,
            TileId::Id3pin => 11,
            TileId::Id4pin => 12,
            TileId::Id5pin => 13,
            TileId::Id6pin => 14,
            TileId::Id7pin => 15,
            TileId::Id8pin => 16,
            TileId::Id9pin => 17,
            TileId::Id1sou => 18,
            TileId::Id2sou => 19,
            TileId::Id3sou => 20,
            TileId::Id4sou => 21,
            TileId::Id5sou => 22,
            TileId::Id6sou => 23,
            TileId::Id7sou => 24,
            TileId::Id8sou => 25,
            TileId::Id9sou => 26,
            TileId::IdTon => 27,
            TileId::IdNan => 28,
            TileId::IdSha => 29,
            TileId::IdPee => 30,
            TileId::IdHaku => 31,
            TileId::IdHatu => 32,
            TileId::IdChun => 33,
        }
    }

    /// The kind at position `i` of the natural order.
    pub fn from_index(i: usize) -> (r: TileId)
        requires
            i < NUM_KINDS,
        ensures
            r.idx() == i as int,
            r == kind_at(i as int),
    {
        if i == 0 { TileId::Id1man }
        else if i == 1 { TileId::Id2man }
        else if i == 2 { TileId::Id3man }
        else if i == 3 { TileId::Id4man }
        else if i == 4 { TileId::Id5man }
        else if i == 5 { TileId::Id6man }
        else if i == 6 { TileId::Id7man }
        else if i == 7 { TileId::Id8man }
        else if i == 8 { TileId::Id9man }
        else if i == 9 { TileId::Id1pin }
        else if i == 10 { TileId::Id2pin }
        else if i == 11 { TileId::Id3pin }
        else if i == 12 { TileId::Id4pin }
        else if i == 13 { TileId::Id5pin }
        else if i == 14 { TileId::Id6pin }
        else if i == 15 { TileId::Id7pin }
        else if i == 16 { TileId::Id8pin }
        else if i == 17 { TileId::Id9pin }
        else if i == 18 { TileId::Id1sou }
        else if i == 19 { TileId::Id2sou }
        else if i == 20 { TileId::Id3sou }
        else if i == 21 { TileId::Id4sou }
        else if i == 22 { TileId::Id5sou }
        else if i == 23 { TileId::Id6sou }
        else if i == 24 { TileId::Id7sou }
        else if i == 25 { TileId::Id8sou }
        else if i == 26 { TileId::Id9sou }
        else if i == 27 { TileId::IdTon }
        else if i == 28 { TileId::IdNan }
        else if i == 29 { TileId::IdSha }
        else if i == 30 { TileId::IdPee }
        else if i == 31 { TileId::IdHaku }
        else if i == 32 { TileId::IdHatu }
        else { TileId::IdChun }
    }

    /// Numeric code of the kind (1-9, 11-19, 21-29 for the suits, 31-37 for honors).
    pub fn code(&self) -> (r: i32)
        ensures
            r as int == self.spec_code(),
            valid_code(r as int),
            idx_of_code(r as int) == self.idx(),
    {
        let i = self.index();
        if i < NUM_SUITED {
            ((i / 9) * 10 + i % 9 + 1) as i32
        } else {
            (i + 4) as i32
        }
    }

    /// The kind with code `c`, if there is one.
    pub fn from_code(c: i32) -> (r: Option<TileId>)
        ensures
            r is Some <==> valid_code(c as int),
            r is Some ==> r->0.idx() == idx_of_code(c as int) && r->0.spec_code() == c as int,
    {
        if (1 <= c && c <= 9) || (11 <= c && c <= 19) || (21 <= c && c <= 29) {
            let i = ((c / 10) * 9 + c % 10 - 1) as usize;
            Some(TileId::from_index(i))
        } else if 31 <= c && c <= 37 {
            Some(TileId::from_index((c - 4) as usize))
        } else {
            None
        }
    }

    /// The kind whose code is this kind's code plus `index`.
    pub fn nth(&self, index: i32) -> (r: TileId)
        requires
            valid_code(self.spec_code() + index),
        ensures
            r.spec_code() == self.spec_code() + index,
            r.idx() == idx_of_code(self.spec_code() + index),
    {
        let c = self.code();
        match TileId::from_code(c + index) {
            Some(t) => t,
            None => *self,
        }
    }

    /// Honor tile?
    pub fn is_jihai(&self) -> (r: bool)
        ensures
            r == honor_idx(self.idx()),
    {
        self.index() >= NUM_SUITED
    }

    /// Numbered tile?
    pub fn is_suhai(&self) -> (r: bool)
        ensures
            r == suited_idx(self.idx()),
    {
        self.index() < NUM_SUITED
    }

    /// Numbered tile of rank 2 to 8?
    pub fn is_chunchan(&self) -> (r: bool)
        ensures
            r == simple_idx(self.idx()),
    {
        let i = self.index();
        i < NUM_SUITED && i % 9 != 0 && i % 9 != 8
    }

    /// Numbered tile of rank 1 or 9?
    pub fn is_routou(&self) -> (r: bool)
        ensures
            r == terminal_idx(self.idx()),
    {
        self.is_suhai() && !self.is_chunchan()
    }

    /// Terminal or honor?
    pub fn is_yaochu(&self) -> (r: bool)
        ensures
            r == yaochu_idx(self.idx()),
    {
        self.is_routou() || self.is_jihai()
    }

    /// Dragon?
    pub fn is_sangen(&self) -> (r: bool)
        ensures
            r == dragon_idx(self.idx()),
    {
        self.index() >= 31
    }

    /// Rank (1 to 9) of a numbered tile.
    pub fn getnumber(&self) -> (r: i32)
        requires
            suited_idx(self.idx()),
        ensures
            r as int == rank_idx(self.idx()),
            1 <= r <= 9,
    {
        (self.index() % 9 + 1) as i32
    }

    /// Suit of a numbered tile.
    pub fn gettype(&self) -> (r: TileType)
        requires
            suited_idx(self.idx()),
        ensures
            self.idx() / 9 == 0 ==> r == TileType::MANZU,
            self.idx() / 9 == 1 ==> r == TileType::PINZU,
            self.idx() / 9 == 2 ==> r == TileType::SOUZU,
    {
        let s = self.index() / 9;
        if s == 0 {
            TileType::MANZU
        } else if s == 1 {
            TileType::PINZU
        } else {
            TileType::SOUZU
        }
    }
}

/// `idx` inverts `kind_at` on the 34 positions.
pub proof fn lemma_idx_kind_at(i: int)
    requires
        0 <= i < 34,
    ensures
        kind_at(i).idx() == i,
{
}


/// Terminal or honor, by kind position.
pub(crate) fn yaochu_at(k: usize) -> (r: bool)
    ensures
        r == yaochu_idx(k as int),
{
    (k < 27 && (k % 9 == 0 || k % 9 == 8)) || (27 <= k && k < 34)
}

/// Position of a wind's honor kind.
pub(crate) fn wind_index(w: Wind) -> (r: usize)
    ensures
        r as int == 27 + match w {
            Wind::Ton => 0int,
            Wind::Nan => 1int,
            Wind::Sha => 2int,
            Wind::Pee => 3int,
        },
{
    match w {
        Wind::Ton => 27,
        Wind::Nan => 28,
        Wind::Sha => 29,
        Wind::Pee => 30,
    }
}

/// Occurrences of the kind at position `k` in `s`.
pub open spec fn count_idx(s: Seq<TileId>, k: int) -> int
    decreases s.len(),
{
    if s.len() == 0 {
        0
    } else {
        count_idx(s.drop_last(), k) + if s.last().idx() == k { 1int } else { 0int }
    }
}

/// The multiset of kinds in `s`, as one count per kind position.
pub open spec fn counts_of(s: Seq<TileId>) -> Seq<int> {
    Seq::new(34, |k: int| count_idx(s, k))
}

/// Byte counts read as integers.
pub open spec fn as_ints(v: Seq<u8>) -> Seq<int> {
    v.map_values(|x: u8| x as int)
}

/// Sum of the counts at positions `lo` up to (not including) `hi`.
pub open spec fn sum_range(c: Seq<int>, lo: int, hi: int) -> int
    decreases hi - lo,
{
    if hi <= lo {
        0
    } else {
        sum_range(c, lo, hi - 1) + c[hi - 1]
    }
}

/// A count never exceeds the length of the sequence.
pub proof fn lemma_count_idx_bounds(s: Seq<TileId>, k: int)
    ensures
        0 <= count_idx(s, k) <= s.len(),
    decreases s.len(),
{
    if s.len() > 0 {
        lemma_count_idx_bounds(s.drop_last(), k);
    }
}

/// The counts of all kinds add up to the number of tiles.
pub proof fn lemma_counts_sum(s: Seq<TileId>)
    ensures
        sum_range(counts_of(s), 0, 34) == s.len(),
    decreases s.len(),
{
    if s.len() == 0 {
        lemma_sum_zero(counts_of(s), 34);
    } else {
        let p = s.drop_last();
        lemma_counts_sum(p);
        let j = s.last().idx();
        assert forall|k: int| 0 <= k < 34 implies counts_of(s)[k] == counts_of(p)[k] + if k == j {
            1int
        } else {
            0int
        } by {
            assert(s.drop_last() == p);
        }
        lemma_sum_bump(counts_of(p), counts_of(s), j, 34);
    }
}

/// A sum of zero counts is zero.
pub proof fn lemma_sum_zero(c: Seq<int>, hi: int)
    requires
        0 <= hi <= c.len(),
        forall|k: int| 0 <= k < hi ==> c[k] == 0,
    ensures
        sum_range(c, 0, hi) == 0,
    decreases hi,
{
    if hi > 0 {
        lemma_sum_zero(c, hi - 1);
    }
}

/// Raising one count by one raises every sum that covers it by one.
pub proof fn lemma_sum_bump(a: Seq<int>, b: Seq<int>, j: int, hi: int)
    requires
        0 <= j < 34,
        0 <= hi <= 34,
        a.len() == 34,
        b.len() == 34,
        forall|k: int| 0 <= k < 34 && k != j ==> b[k] == a[k],
        b[j] == a[j] + 1,
    ensures
        sum_range(b, 0, hi) == sum_range(a, 0, hi) + if j < hi { 1int } else { 0int },
    decreases hi,
{
    if hi > 0 {
        lemma_sum_bump(a, b, j, hi - 1);
    }
}

/// The counter of the `counter` crate: a map from items to their counts.
#[verifier::external_type_specification]
#[verifier::external_body]
#[verifier::reject_recursive_types(T)]
#[verifier::reject_recursive_types(N)]
pub struct ExCounter<T: core::hash::Hash + Eq, N>(Counter<T, N>);

/// What a counter of kind positions holds: each position as often as counted.
pub uninterp spec fn counted(c: Counter<u8, usize>) -> Multiset<u8>;

/// Relies on `Counter::init` of the `counter` crate (what collecting into a
/// counter calls): it adds one to an item's count for each time it occurs.
#[verifier::external_body]
fn count_items(items: &Vec<u8>) -> (r: Counter<u8, usize>)
    ensures
        counted(r) == items@.to_multiset(),
{
    Counter::init(items.iter().copied())
}

/// Relies on indexing a `Counter` of the `counter` crate: the count of the
/// key, zero when it never occurred.
#[verifier::external_body]
fn count_of(c: &Counter<u8, usize>, k: u8) -> (r: usize)
    ensures
        r as nat == counted(*c).count(k),
{
    c[&k]
}

/// The kind positions of tiles, as bytes.
pub open spec fn kind_codes(s: Seq<TileId>) -> Seq<u8> {
    s.map_values(|t: TileId| t.idx() as u8)
}

/// A kind's count is the multiplicity of its position among the tiles' positions.
proof fn lemma_codes_multiset(s: Seq<TileId>, k: int)
    requires
        0 <= k < 34,
    ensures
        kind_codes(s).to_multiset().count(k as u8) == count_idx(s, k),
    decreases s.len(),
{
    broadcast use vstd::seq_lib::group_to_multiset_ensures;
    if s.len() == 0 {
        assert(kind_codes(s).to_multiset() =~= Multiset::empty());
    } else {
        let p = s.drop_last();
        lemma_codes_multiset(p, k);
        assert(kind_codes(s) =~= kind_codes(p).push(s.last().idx() as u8));
        assert(kind_codes(p).push(s.last().idx() as u8).to_multiset() =~= kind_codes(p).to_multiset().insert(s.last().idx() as u8));
        assert(0 <= s.last().idx() < 34);
        assert((s.last().idx() as u8 == k as u8) == (s.last().idx() == k));
    }
}

/// Count the occurrences of each kind.
pub fn calculate_tile_counts(tiles: &[TileId]) -> (r: Vec<u8>)
    requires
        tiles@.len() <= MAX_TILES,
    ensures
        r@.len() == NUM_KINDS,
        as_ints(r@) == counts_of(tiles@),
{
    let mut codes: Vec<u8> = Vec::new();
    let mut i: usize = 0;
    while i < tiles.len()
        invariant
            i <= tiles@.len(),
            codes@ == kind_codes(tiles@.take(i as int)),
        decreases tiles@.len() - i,
    {
        codes.push(tiles[i].index() as u8);
        i = i + 1;
        proof {
            assert(codes@ =~= kind_codes(tiles@.take(i as int)));
        }
    }
    proof {
        assert(tiles@.take(i as int) =~= tiles@);
    }
    let counter = count_items(&codes);
    let mut r: Vec<u8> = Vec::new();
    let mut k: usize = 0;
    while k < NUM_KINDS
        invariant
            k <= NUM_KINDS,
            tiles@.len() <= MAX_TILES,
            codes@ == kind_codes(tiles@),
            counted(counter) == codes@.to_multiset(),
            r@.len() == k,
            forall|j: int| 0 <= j < k ==> r@[j] as int == count_idx(tiles@, j),
        decreases NUM_KINDS - k,
    {
        let n = count_of(&counter, k as u8);
        proof {
            lemma_codes_multiset(tiles@, k as int);
            lemma_count_idx_bounds(tiles@, k as int);
        }
        r.push(n as u8);
        k = k + 1;
    }
    proof {
        assert(as_ints(r@) =~= counts_of(tiles@));
    }
    r
}

/// Kinds of a tile sequence.
pub open spec fn ids(ts: Seq<Tile>) -> Seq<TileId> {
    ts.map_values(|t: Tile| t.id)
}

/// Tiles of a meld.
pub open spec fn meld_tiles(m: Meld) -> Seq<Tile> {
    match m {
        Meld::Pung { tiles } => tiles@,
        Meld::Chow { tiles } => tiles@,
        Meld::Ankan { tiles } => tiles@,
        Meld::Minkan { tiles } => tiles@,
        Meld::Kakan { tiles } => tiles@,
    }
}

/// Kinds of all tiles of a meld sequence, meld after meld.
pub open spec fn melds_ids(ms: Seq<Meld>) -> Seq<TileId>
    decreases ms.len(),
{
    if ms.len() == 0 {
        seq![]
    } else {
        melds_ids(ms.drop_last()) + ids(meld_tiles(ms.last()))
    }
}

/// Quad of any kind.
pub open spec fn meld_is_kan(m: Meld) -> bool {
    m is Ankan || m is Minkan || m is Kakan
}

/// Number of quads in a meld sequence.
pub open spec fn kan_count(ms: Seq<Meld>) -> int
    decreases ms.len(),
{
    if ms.len() == 0 {
        0
    } else {
        kan_count(ms.drop_last()) + if meld_is_kan(ms.last()) { 1int } else { 0int }
    }
}

/// A meld is well formed: a triplet or quad of one kind, or a run of three
/// consecutive ranks of one suit given lowest first.
pub open spec fn meld_wf(m: Meld) -> bool {
    match m {
        Meld::Chow { tiles } => {
            let i = tiles[0].id.idx();
            suited_idx(i) && rank_idx(i) <= 7 && tiles[1].id.idx() == i + 1 && tiles[2].id.idx()
                == i + 2
        },
        Meld::Pung { tiles } => tiles[1].id == tiles[0].id && tiles[2].id == tiles[0].id,
        Meld::Ankan { tiles } => tiles[1].id == tiles[0].id && tiles[2].id == tiles[0].id
            && tiles[3].id == tiles[0].id,
        Meld::Minkan { tiles } => tiles[1].id == tiles[0].id && tiles[2].id == tiles[0].id
            && tiles[3].id == tiles[0].id,
        Meld::Kakan { tiles } => tiles[1].id == tiles[0].id && tiles[2].id == tiles[0].id
            && tiles[3].id == tiles[0].id,
    }
}

impl Meld {
    /// Well formed: one kind for a triplet or quad, consecutive ranks of a suit
    /// (lowest first) for a run.
    pub fn is_well_formed(&self) -> (r: bool)
        ensures
            r == meld_wf(*self),
    {
        match self {
            Meld::Chow { tiles } => {
                let i = tiles[0].id.index();
                i < NUM_SUITED && i % 9 <= 6 && tiles[1].id.index() == i + 1 && tiles[2].id.index()
                    == i + 2
            },
            Meld::Pung { tiles } => tiles[1].id == tiles[0].id && tiles[2].id == tiles[0].id,
            Meld::Ankan { tiles } => tiles[1].id == tiles[0].id && tiles[2].id == tiles[0].id
                && tiles[3].id == tiles[0].id,
            Meld::Minkan { tiles } => tiles[1].id == tiles[0].id && tiles[2].id == tiles[0].id
                && tiles[3].id == tiles[0].id,
            Meld::Kakan { tiles } => tiles[1].id == tiles[0].id && tiles[2].id == tiles[0].id
                && tiles[3].id == tiles[0].id,
        }
    }
}

impl Hand {
    /// Fully concealed: every meld is a concealed quad.
    pub open spec fn spec_is_menzen(&self) -> bool {
        forall|i: int| 0 <= i < self.melds@.len() ==> self.melds@[i] is Ankan
    }

    /// Kinds of the concealed tiles followed by those of the melds.
    pub open spec fn spec_marged(&self) -> Seq<TileId> {
        ids(self.hand@) + melds_ids(self.melds@)
    }

    /// Fully concealed?
    pub fn is_menzen(&self) -> (r: bool)
        ensures
            r == self.spec_is_menzen(),
    {
        let mut i: usize = 0;
        while i < self.melds.len()
            invariant
                i <= self.melds@.len(),
                forall|j: int| 0 <= j < i ==> self.melds@[j] is Ankan,
            decreases self.melds@.len() - i,
        {
            match &self.melds[i] {
                Meld::Ankan { .. } => {},
                _ => {
                    return false;
                },
            }
            i = i + 1;
        }
        true
    }

    /// Number of quads among the melds.
    pub fn num_kan(&self) -> (r: i32)
        requires
            self.melds@.len() <= i32::MAX,
        ensures
            r as int == kan_count(self.melds@),
    {
        let mut num: i32 = 0;
        let mut i: usize = 0;
        while i < self.melds.len()
            invariant
                i <= self.melds@.len(),
                self.melds@.len() <= i32::MAX,
                num as int == kan_count(self.melds@.take(i as int)),
                0 <= num <= i,
            decreases self.melds@.len() - i,
        {
            proof {
                assert(self.melds@.take(i as int + 1).drop_last() =~= self.melds@.take(i as int));
            }
            match &self.melds[i] {
                Meld::Ankan { .. } | Meld::Minkan { .. } | Meld::Kakan { .. } => {
                    num = num + 1;
                },
                _ => {},
            }
            i = i + 1;
        }
        proof {
            assert(self.melds@.take(i as int) =~= self.melds@);
        }
        num
    }

    /// Kinds of the concealed tiles followed by those of the melds.
    pub fn marged_tiles(&self) -> (r: Vec<TileId>)
        ensures
            r@ == self.spec_marged(),
    {
        let mut r: Vec<TileId> = Vec::new();
        let mut i: usize = 0;
        while i < self.hand.len()
            invariant
                i <= self.hand@.len(),
                r@ == ids(self.hand@.take(i as int)),
            decreases self.hand@.len() - i,
        {
            r.push(self.hand[i].id);
            i = i + 1;
            proof {
                assert(r@ =~= ids(self.hand@.take(i as int)));
            }
        }
        proof {
            assert(self.hand@.take(i as int) =~= self.hand@);
        }
        let mut j: usize = 0;
        while j < self.melds.len()
            invariant
                j <= self.melds@.len(),
                r@ == ids(self.hand@) + melds_ids(self.melds@.take(j as int)),
            decreases self.melds@.len() - j,
        {
            let ghost before = r@;
            match &self.melds[j] {
                Meld::Pung { tiles } | Meld::Chow { tiles } => {
                    r.push(tiles[0].id);
                    r.push(tiles[1].id);
                    r.push(tiles[2].id);
                    proof {
                        assert(r@ =~= before + ids(tiles@));
                    }
                },
                Meld::Ankan { tiles } | Meld::Minkan { tiles } | Meld::Kakan { tiles } => {
                    r.push(tiles[0].id);
                    r.push(tiles[1].id);
                    r.push(tiles[2].id);
                    r.push(tiles[3].id);
                    proof {
                        assert(r@ =~= before + ids(tiles@));
                    }
                },
            }
            proof {
                assert(self.melds@.take(j as int + 1).drop_last() =~= self.melds@.take(j as int));
            }
            j = j + 1;
            proof {
                assert(r@ =~= ids(self.hand@) + melds_ids(self.melds@.take(j as int)));
            }
        }
        proof {
            assert(self.melds@.take(j as int) =~= self.melds@);
        }
        r
    }
}


/// A kind's count is its multiplicity in the multiset of the tiles.
pub proof fn lemma_count_idx_multiset(s: Seq<TileId>, k: int)
    requires
        0 <= k < 34,
    ensures
        count_idx(s, k) == s.to_multiset().count(kind_at(k)),
    decreases s.len(),
{
    broadcast use vstd::seq_lib::group_to_multiset_ensures;
    if s.len() == 0 {
        assert(s.to_multiset() =~= vstd::multiset::Multiset::empty());
    } else {
        let p = s.drop_last();
        lemma_count_idx_multiset(p, k);
        assert(s == p.push(s.last()));
        lemma_idx_kind_at(k);
        assert(p.push(s.last()).to_multiset() =~= p.to_multiset().insert(s.last()));
        assert((s.last().idx() == k) == (s.last() == kind_at(k)));
    }
}

/// Tiles with the same multiset have the same counts, whatever their order.
pub proof fn lemma_counts_of_permutation(a: Seq<TileId>, b: Seq<TileId>)
    requires
        a.to_multiset() == b.to_multiset(),
    ensures
        counts_of(a) == counts_of(b),
{
    assert forall|k: int| 0 <= k < 34 implies counts_of(a)[k] == counts_of(b)[k] by {
        lemma_count_idx_multiset(a, k);
        lemma_count_idx_multiset(b, k);
    }
    assert(counts_of(a) =~= counts_of(b));
}

} // verus!
