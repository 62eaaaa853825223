use vstd::prelude::*;

use crate::lang::Letter;
use crate::space::{Dimension, Distance, Location, Orientation};

verus! {

/// An integer held to the `i32` range: value arithmetic in scoring
/// saturates at the `i32` bounds instead of wrapping.
pub open spec fn clamp_i32(v: int) -> int {
    if v > i32::MAX {
        i32::MAX as int
    } else if v < i32::MIN {
        i32::MIN as int
    } else {
        v
    }
}

/// Multiply two values, saturating at the `i32` bounds.
fn mul_clamped(a: i32, b: i32) -> (r: i32)
    ensures
        r as int == clamp_i32((a as int) * (b as int)),
{
    proof {
        assert(-0x4000_0000_0000_0000 <= (a as int) * (b as int) <= 0x4000_0000_0000_0000)
            by (nonlinear_arith)
            requires
                -0x8000_0000 <= a as int <= 0x7fff_ffff,
                -0x8000_0000 <= b as int <= 0x7fff_ffff,
        ;
    }
    let p: i64 = a as i64 * b as i64;
    if p > i32::MAX as i64 {
        i32::MAX
    } else if p < i32::MIN as i64 {
        i32::MIN
    } else {
        p as i32
    }
}

/// Add two values, saturating at the `i32` bounds.
fn add_clamped(a: i32, b: i32) -> (r: i32)
    ensures
        r as int == clamp_i32((a as int) + (b as int)),
{
    let s: i64 = a as i64 + b as i64;
    if s > i32::MAX as i64 {
        i32::MAX
    } else if s < i32::MIN as i64 {
        i32::MIN
    } else {
        s as i32
    }
}

/// The class of a recoverable, operational error.
#[derive(Clone, Copy, Debug, PartialEq, Eq, Structural)]
pub enum ErrorKind {
    /// A placement was rejected by the board's validation rules.
    InvalidPlacement,
    /// A requested letter has no piece left in the supply.
    NoSuchPiece,
    /// The piece supply cannot satisfy a draw or an exchange.
    NotEnoughPieces,
}

/// A recoverable, operational error: a kind to branch on and a
/// human-readable message.
#[derive(Debug)]
pub struct Error {
    pub kind: ErrorKind,
    pub message: String,
}

/// A game token: an optional letter identity (none for an unresolved
/// wildcard), a point value, and a wildcard flag.
#[derive(Clone, Copy, Debug)]
pub struct Piece {
    pub letter: Option<Letter>,
    pub value: i32,
    pub wild: bool,
}

impl Piece {
    /// Piece equality: two wildcards are always equal, whatever letter each
    /// has resolved to; a wildcard and a non-wildcard are never equal; two
    /// non-wildcards are equal exactly when their letters match.
    pub open spec fn spec_eq(self, other: Piece) -> bool {
        if self.wild != other.wild {
            false
        } else if self.wild {
            true
        } else {
            self.letter == other.letter
        }
    }

    /// Create a piece with the given letter identity, point value, and
    /// wildcard flag.
    pub fn new(letter: Option<Letter>, value: i32, wild: bool) -> (p: Piece)
        ensures
            p.letter == letter,
            p.value == value,
            p.wild == wild,
    {
        Piece { letter, value, wild }
    }

    /// Set the letter that this piece represents.
    pub fn set_letter(&mut self, letter: Option<Letter>)
        ensures
            final (self).letter == letter,
            final (self).value == old(self).value,
            final (self).wild == old(self).wild,
    {
        self.letter = letter;
    }

    /// Retrieve the letter that this piece represents.
    pub fn letter(&self) -> (letter: Option<Letter>)
        ensures
            letter == self.letter,
    {
        self.letter
    }

    /// Retrieve the base value of this piece when used in a placement.
    pub fn value(&self) -> (value: i32)
        ensures
            value == self.value,
    {
        self.value
    }

    /// Whether this piece is a wildcard: no specific letter until one is
    /// chosen.
    pub fn wild(&self) -> (wild: bool)
        ensures
            wild == self.wild,
    {
        self.wild
    }
}

impl PartialEq for Piece {
    fn eq(&self, other: &Piece) -> (r: bool) {
        if self.wild != other.wild {
            false
        } else if self.wild {
            true
        } else {
            match (&self.letter, &other.letter) {
                (Option::None, Option::None) => true,
                (Option::Some(a), Option::Some(b)) => a.character == b.character,
                _ => false,
            }
        }
    }
}

impl vstd::std_specs::cmp::PartialEqSpecImpl for Piece {
    open spec fn obeys_eq_spec() -> bool {
        true
    }

    open spec fn eq_spec(&self, other: &Piece) -> bool {
        self.spec_eq(*other)
    }
}

/// Piece equality is governed by the wildcard flags first and the letters
/// second: two wildcards are equal regardless of their letter fields, a
/// wildcard never equals a non-wildcard, and two non-wildcards are equal
/// exactly when their letters match.
pub proof fn lemma_piece_equality(a: Piece, b: Piece)
    ensures
        a.wild && b.wild ==> a.spec_eq(b),
        a.wild != b.wild ==> !a.spec_eq(b),
        !a.wild && !b.wild ==> (a.spec_eq(b) <==> a.letter == b.letter),
{
}

/// A scoring modifier bound to a tile, from the closed set of modifier
/// kinds. Each modifies a value found at some separation from its own
/// tile; attributes compare by variant and parameters.
#[derive(Clone, Copy, Debug, Hash, PartialEq, Eq, Structural)]
pub enum TileAttribute {
    /// Multiplies the value of the piece on this attribute's own tile:
    /// it applies only at zero separation.
    LetterBonus { multiplier: i32, visible: bool },
    /// Multiplies any value that arises in the same word as this
    /// attribute's tile, whatever the separation.
    WordBonus { multiplier: i32, visible: bool },
}

impl TileAttribute {
    /// The value this attribute turns the given value into, when the value
    /// was found `distance` away from the attribute's own tile and
    /// `same_word` says whether it arose in the same word. Multiplication
    /// saturates at the `i32` bounds.
    pub open spec fn spec_modify(self, value: int, distance: Distance, same_word: bool) -> int {
        match self {
            TileAttribute::LetterBonus { multiplier, .. } => {
                if distance == Distance::spec_zero() {
                    clamp_i32(value * multiplier)
                } else {
                    value
                }
            },
            TileAttribute::WordBonus { multiplier, .. } => {
                if same_word {
                    clamp_i32(value * multiplier)
                } else {
                    value
                }
            },
        }
    }

    /// Whether this attribute is disclosed to the player before a piece is
    /// placed on its tile.
    pub open spec fn spec_visible(self) -> bool {
        match self {
            TileAttribute::LetterBonus { visible, .. } => visible,
            TileAttribute::WordBonus { visible, .. } => visible,
        }
    }

    /// Modify the given value based on the rules of this attribute.
    ///
    /// The distance is from the tile to which this attribute belongs to
    /// where the given value was found: zero when modifying its own
    /// tile's value. `same_word` indicates whether the value was found on
    /// a tile in the same word as the tile having this attribute.
    pub fn modify_value(&self, value: i32, distance: &Distance, same_word: bool) -> (r: i32)
        ensures
            r as int == self.spec_modify(value as int, *distance, same_word),
    {
        match *self {
            TileAttribute::LetterBonus { multiplier, .. } => {
                if distance.x == 0 && distance.y == 0 && distance.z == 0 {
                    mul_clamped(value, multiplier)
                } else {
                    value
                }
            },
            TileAttribute::WordBonus { multiplier, .. } => {
                if same_word {
                    mul_clamped(value, multiplier)
                } else {
                    value
                }
            },
        }
    }

    /// Whether this attribute should be visible to the player before a
    /// piece is placed on the tile.
    pub fn visible(&self) -> (r: bool)
        ensures
            r == self.spec_visible(),
    {
        match *self {
            TileAttribute::LetterBonus { visible, .. } => visible,
            TileAttribute::WordBonus { visible, .. } => visible,
        }
    }
}

/// A cell of the board: a fixed location, at most one occupying piece,
/// and the ordered list of scoring attributes attached to it.
#[derive(Clone, Debug)]
pub struct Tile {
    pub location: Location,
    pub piece: Option<Piece>,
    pub attributes: Vec<TileAttribute>,
}

impl Tile {
    /// The value of this tile from its occupying piece alone: 0 when
    /// unoccupied.
    pub open spec fn spec_base_value(self) -> int {
        match self.piece {
            Option::None => 0,
            Option::Some(p) => p.value as int,
        }
    }

    /// Create an empty tile at the given location.
    pub fn new(location: Location) -> (t: Tile)
        ensures
            t.location == location,
            t.piece is None,
            t.attributes@ == Seq::<TileAttribute>::empty(),
    {
        let t = Tile { location, piece: None, attributes: Vec::new() };
        proof {
            assert(t.attributes@ =~= Seq::<TileAttribute>::empty());
        }
        t
    }

    /// Retrieve this tile's location.
    pub fn location(&self) -> (l: Location)
        ensures
            l == self.location,
    {
        self.location
    }

    /// Set the piece that occupies this tile, replacing any occupant.
    /// Guarding against overwrites is the board's concern, not this
    /// tile's.
    pub fn set_piece(&mut self, piece: Piece)
        ensures
            final (self).location == old(self).location,
            final (self).piece == Some(piece),
            final (self).attributes == old(self).attributes,
    {
        self.piece = Some(piece);
    }

    /// Get the piece that occupies this tile, or nothing if it is empty.
    pub fn piece(&self) -> (p: Option<Piece>)
        ensures
            p == self.piece,
    {
        self.piece
    }

    /// The value of this tile from its occupying piece alone; attributes
    /// are not considered.
    pub fn base_value(&self) -> (v: i32)
        ensures
            v as int == self.spec_base_value(),
    {
        match &self.piece {
            Option::None => 0,
            Option::Some(p) => p.value,
        }
    }

    /// Append the given attribute to this tile's attribute list; it will
    /// apply after every attribute attached earlier.
    pub fn add_attribute(&mut self, attribute: TileAttribute)
        ensures
            final (self).location == old(self).location,
            final (self).piece == old(self).piece,
            final (self).attributes@ == old(self).attributes@.push(attribute),
    {
        self.attributes.push(attribute);
    }

    /// Remove the first attribute equal to the given one, if any is
    /// attached: attributes compare by value, so equal duplicates are
    /// indistinguishable and the earliest match leaves.
    pub fn remove_attribute(&mut self, attribute: &TileAttribute)
        ensures
            final (self).location == old(self).location,
            final (self).piece == old(self).piece,
            old(self).attributes@.contains(*attribute) ==> exists|i: int|
                0 <= i < old(self).attributes@.len() && old(self).attributes@[i] == *attribute && (
                forall|j: int| 0 <= j < i ==> old(self).attributes@[j] != *attribute)
                && final (self).attributes@ == old(self).attributes@.remove(i),
            !old(self).attributes@.contains(*attribute) ==> final (self).attributes@ == old(
                self,
            ).attributes@,
    {
        let ghost orig = self.attributes@;
        let n = self.attributes.len();
        let mut i: usize = 0;
        while i < n
            invariant
                self.location == old(self).location,
                self.piece == old(self).piece,
                self.attributes@ == orig,
                orig == old(self).attributes@,
                n == orig.len(),
                0 <= i <= n,
                forall|j: int| 0 <= j < i ==> orig[j] != *attribute,
            decreases n - i,
        {
            if self.attributes[i] == *attribute {
                proof {
                    assert(orig[i as int] == *attribute);
                    assert(orig.contains(*attribute));
                }
                self.attributes.remove(i);
                proof {
                    let iv = i as int;
                    assert(self.attributes@ == orig.remove(iv));
                    assert(0 <= iv < orig.len() && orig[iv] == *attribute && (forall|j: int|
                        0 <= j < iv ==> orig[j] != *attribute) && self.attributes@ == orig.remove(
                            iv,
                        ));
                }
                return ;
            }
            i += 1;
        }
        proof {
            if orig.contains(*attribute) {
                let idx = choose|idx: int| 0 <= idx < orig.len() && orig[idx] == *attribute;
                assert(orig[idx] != *attribute);
            }
        }
    }

    /// Retrieve the ordered list of attributes attached to this tile.
    pub fn attributes(&self) -> (a: &Vec<TileAttribute>)
        ensures
            a@ == self.attributes@,
    {
        &self.attributes
    }
}

/// The first tile of the sequence standing at the given location, if any
/// does.
pub open spec fn find_tile(tiles: Seq<Tile>, location: Location) -> Option<Tile>
    decreases tiles.len(),
{
    if tiles.len() == 0 {
        None
    } else if tiles[0].location == location {
        Some(tiles[0])
    } else {
        find_tile(tiles.skip(1), location)
    }
}

/// No two tiles of the sequence stand at the same location.
pub open spec fn unique_locations(tiles: Seq<Tile>) -> bool {
    forall|i: int, j: int|
        0 <= i < j < tiles.len() ==> (#[trigger] tiles[i].location) != (#[trigger] tiles[j].location)
}

/// Skipping a location-free prefix leaves the search unchanged.
proof fn lemma_find_tile_skip(tiles: Seq<Tile>, location: Location, i: int)
    requires
        0 <= i <= tiles.len(),
        forall|j: int| 0 <= j < i ==> (#[trigger] tiles[j].location) != location,
    ensures
        find_tile(tiles, location) == find_tile(tiles.skip(i), location),
    decreases i,
{
    if i == 0 {
        assert(tiles.skip(0) =~= tiles);
    } else {
        lemma_find_tile_skip(tiles, location, i - 1);
        assert(tiles.skip(i - 1)[0] == tiles[i - 1]);
        assert(tiles.skip(i - 1).skip(1) =~= tiles.skip(i));
    }
}

/// Under unique locations, searching for the location of the tile at any
/// index finds exactly that tile.
proof fn lemma_find_tile_at_index(tiles: Seq<Tile>, i: int)
    requires
        unique_locations(tiles),
        0 <= i < tiles.len(),
    ensures
        find_tile(tiles, tiles[i].location) == Some(tiles[i]),
{
    assert forall|j: int| 0 <= j < i implies (#[trigger] tiles[j].location) != tiles[i].location by {
        assert(tiles[j].location != tiles[i].location);
    }
    lemma_find_tile_skip(tiles, tiles[i].location, i);
    assert(tiles.skip(i)[0] == tiles[i]);
}

/// A search succeeds exactly when some index holds the location, and what
/// it finds is one of the tiles, standing at that location.
proof fn lemma_find_tile_some(tiles: Seq<Tile>, location: Location)
    ensures
        (find_tile(tiles, location) is Some) == (exists|idx: int|
            0 <= idx < tiles.len() && (#[trigger] tiles[idx].location) == location),
        find_tile(tiles, location) is Some ==> exists|idx: int|
            0 <= idx < tiles.len() && #[trigger] tiles[idx] == find_tile(tiles, location)->Some_0
                && tiles[idx].location == location,
    decreases tiles.len(),
{
    if tiles.len() == 0 {
    } else if tiles[0].location == location {
        assert(tiles[0].location == location);
    } else {
        lemma_find_tile_some(tiles.skip(1), location);
        let rest = tiles.skip(1);
        if find_tile(tiles, location) is Some {
            let idx = choose|idx: int|
                0 <= idx < rest.len() && #[trigger] rest[idx] == find_tile(rest, location)->Some_0
                    && rest[idx].location == location;
            assert(tiles[idx + 1] == rest[idx]);
        }
        if exists|idx: int| 0 <= idx < tiles.len() && (#[trigger] tiles[idx].location) == location {
            let idx = choose|idx: int|
                0 <= idx < tiles.len() && (#[trigger] tiles[idx].location) == location;
            assert(idx != 0);
            assert(rest[idx - 1].location == location);
        }
    }
}

/// Appending a tile does not disturb searches that already succeed, and
/// serves searches for the appended tile's own location.
proof fn lemma_find_tile_push(tiles: Seq<Tile>, t: Tile, location: Location)
    ensures
        find_tile(tiles.push(t), location) == (if find_tile(tiles, location) is Some {
            find_tile(tiles, location)
        } else if t.location == location {
            Some(t)
        } else {
            None
        }),
    decreases tiles.len(),
{
    let p = tiles.push(t);
    if tiles.len() == 0 {
        assert(p[0] == t);
        if t.location != location {
            assert(p.skip(1) =~= Seq::<Tile>::empty());
        }
    } else {
        assert(p[0] == tiles[0]);
        if tiles[0].location != location {
            assert(p.skip(1) =~= tiles.skip(1).push(t));
            lemma_find_tile_push(tiles.skip(1), t, location);
        }
    }
}

/// Replacing a tile with one at the same location does not disturb
/// searches for any other location.
proof fn lemma_find_tile_update_other(tiles: Seq<Tile>, i: int, t: Tile, location: Location)
    requires
        0 <= i < tiles.len(),
        t.location == tiles[i].location,
        location != t.location,
    ensures
        find_tile(tiles.update(i, t), location) == find_tile(tiles, location),
    decreases tiles.len(),
{
    let u = tiles.update(i, t);
    if i == 0 {
        assert(u[0] == t);
        assert(u.skip(1) =~= tiles.skip(1));
    } else {
        assert(u[0] == tiles[0]);
        if tiles[0].location != location {
            assert(u.skip(1) =~= tiles.skip(1).update(i - 1, t));
            lemma_find_tile_update_other(tiles.skip(1), i - 1, t, location);
        }
    }
}

/// Copy an attribute list element by element.
fn copy_attributes(attributes: &Vec<TileAttribute>) -> (r: Vec<TileAttribute>)
    ensures
        r@ == attributes@,
{
    let mut r: Vec<TileAttribute> = Vec::new();
    let n = attributes.len();
    let mut i: usize = 0;
    while i < n
        invariant
            n == attributes@.len(),
            0 <= i <= n,
            r@ == attributes@.subrange(0, i as int),
        decreases n - i,
    {
        r.push(attributes[i]);
        proof {
            assert(r@ =~= attributes@.subrange(0, i as int + 1));
        }
        i += 1;
    }
    proof {
        assert(attributes@.subrange(0, n as int) =~= attributes@);
    }
    r
}

/// The board's collection of tiles, keyed by location and materialized
/// lazily: a tile exists only once something has touched its location.
///
/// Invariant (`wf`): no two tiles stand at the same location, so every
/// lookup observation is unambiguous.
#[derive(Clone, Debug)]
pub struct TileSet {
    pub tiles: Vec<Tile>,
}

impl TileSet {
    /// No two tiles stand at the same location.
    pub open spec fn wf(self) -> bool {
        unique_locations(self.tiles@)
    }

    /// The tile standing at the given location, if one has been
    /// materialized there.
    pub open spec fn spec_tile_at(self, location: Location) -> Option<Tile> {
        find_tile(self.tiles@, location)
    }

    /// Whether a tile has been materialized at the given location.
    pub open spec fn spec_has_tile(self, location: Location) -> bool {
        self.spec_tile_at(location) is Some
    }

    /// The piece occupying the given location, if any: none when the
    /// location has no tile or an empty one.
    pub open spec fn spec_piece_at(self, location: Location) -> Option<Piece> {
        match self.spec_tile_at(location) {
            Option::None => None,
            Option::Some(t) => t.piece,
        }
    }

    /// The ordered attributes attached at the given location: empty when
    /// the location has no tile.
    pub open spec fn spec_attrs_at(self, location: Location) -> Seq<TileAttribute> {
        match self.spec_tile_at(location) {
            Option::None => Seq::<TileAttribute>::empty(),
            Option::Some(t) => t.attributes@,
        }
    }

    /// Whether a piece occupies the given location.
    pub open spec fn spec_occupied(self, location: Location) -> bool {
        self.spec_piece_at(location) is Some
    }

    /// Whether any location at all is occupied.
    pub open spec fn spec_has_occupied(self) -> bool {
        exists|l: Location| #[trigger] self.spec_occupied(l)
    }

    /// Create an empty tile set: no tile anywhere, nothing occupied.
    pub fn new() -> (ts: TileSet)
        ensures
            ts.wf(),
            forall|l: Location| !(#[trigger] ts.spec_has_tile(l)),
            forall|l: Location| #[trigger] ts.spec_piece_at(l) is None,
            forall|l: Location| #[trigger] ts.spec_attrs_at(l) == Seq::<TileAttribute>::empty(),
            !ts.spec_has_occupied(),
    {
        let ts = TileSet { tiles: Vec::new() };
        proof {
            assert(ts.tiles@.len() == 0);
            if ts.spec_has_occupied() {
                let l = choose|l: Location| ts.spec_occupied(l);
                assert(!ts.spec_occupied(l));
            }
        }
        ts
    }

    /// Remove every tile from this set.
    pub fn clear(&mut self)
        ensures
            final (self).wf(),
            forall|l: Location| !(#[trigger] final (self).spec_has_tile(l)),
            forall|l: Location| #[trigger] final (self).spec_piece_at(l) is None,
            forall|l: Location| #[trigger]
                final (self).spec_attrs_at(l) == Seq::<TileAttribute>::empty(),
            !final (self).spec_has_occupied(),
    {
        self.tiles.clear();
        proof {
            assert(self.tiles@.len() == 0);
            if self.spec_has_occupied() {
                let l = choose|l: Location| self.spec_occupied(l);
                assert(!self.spec_occupied(l));
            }
        }
    }

    /// The index of the tile standing at the given location, if any.
    fn index_of(&self, location: &Location) -> (r: Option<usize>)
        ensures
            match r {
                Option::Some(i) => i < self.tiles@.len() && self.tiles@[i as int].location
                    == *location,
                Option::None => forall|j: int|
                    0 <= j < self.tiles@.len() ==> (#[trigger] self.tiles@[j].location)
                        != *location,
            },
    {
        let n = self.tiles.len();
        let mut i: usize = 0;
        while i < n
            invariant
                n == self.tiles@.len(),
                0 <= i <= n,
                forall|j: int| 0 <= j < i ==> (#[trigger] self.tiles@[j].location) != *location,
            decreases n - i,
        {
            if self.tiles[i].location == *location {
                return Some(i);
            }
            i += 1;
        }
        None
    }

    /// Retrieve a snapshot of the tile at the given location, creating an
    /// empty tile there first if no tile exists yet. No observation other
    /// than the location's own existence changes.
    pub fn tile(&mut self, location: &Location) -> (t: Tile)
        requires
            old(self).wf(),
        ensures
            final (self).wf(),
            final (self).spec_has_tile(*location),
            forall|l: Location| #[trigger]
                final (self).spec_piece_at(l) == old(self).spec_piece_at(l),
            forall|l: Location| #[trigger]
                final (self).spec_attrs_at(l) == old(self).spec_attrs_at(l),
            forall|l: Location|
                l != *location ==> #[trigger] final (self).spec_has_tile(l) == old(
                    self,
                ).spec_has_tile(l),
            t.location == *location,
            t.piece == old(self).spec_piece_at(*location),
            t.attributes@ == old(self).spec_attrs_at(*location),
    {
        match self.index_of(location) {
            Option::Some(i) => {
                proof {
                    lemma_find_tile_at_index(self.tiles@, i as int);
                }
                Tile {
                    location: self.tiles[i].location,
                    piece: self.tiles[i].piece,
                    attributes: copy_attributes(&self.tiles[i].attributes),
                }
            },
            Option::None => {
                let created = Tile::new(*location);
                self.tiles.push(created);
                proof {
                    let orig = old(self).tiles@;
                    let upd = self.tiles@;
                    lemma_find_tile_skip(orig, *location, orig.len() as int);
                    assert(orig.skip(orig.len() as int) =~= Seq::<Tile>::empty());
                    assert forall|u: int, v: int| 0 <= u < v < upd.len() implies (
                    #[trigger] upd[u].location) != (#[trigger] upd[v].location) by {
                        if v < orig.len() {
                            assert(upd[u] == orig[u] && upd[v] == orig[v]);
                        } else {
                            assert(upd[u] == orig[u] && upd[v] == created);
                        }
                    }
                    assert forall|l: Location| #[trigger]
                        find_tile(upd, l) == (if l == *location {
                            Some(created)
                        } else {
                            find_tile(orig, l)
                        }) by {
                        lemma_find_tile_push(orig, created, l);
                    }
                }
                Tile::new(*location)
            },
        }
    }

    /// Set the piece occupying the given location, materializing the tile
    /// there if needed. Only that location's piece observation changes;
    /// every attribute observation is preserved.
    pub fn set_piece(&mut self, location: &Location, piece: Piece)
        requires
            old(self).wf(),
        ensures
            final (self).wf(),
            final (self).spec_has_tile(*location),
            final (self).spec_piece_at(*location) == Some(piece),
            forall|l: Location|
                l != *location ==> #[trigger] final (self).spec_piece_at(l) == old(
                    self,
                ).spec_piece_at(l),
            forall|l: Location|
                l != *location ==> #[trigger] final (self).spec_has_tile(l) == old(
                    self,
                ).spec_has_tile(l),
            forall|l: Location| #[trigger]
                final (self).spec_attrs_at(l) == old(self).spec_attrs_at(l),
    {
        match self.index_of(location) {
            Option::Some(i) => {
                let mut t = self.tiles.remove(i);
                t.set_piece(piece);
                self.tiles.insert(i, t);
                proof {
                    let orig = old(self).tiles@;
                    let upd = self.tiles@;
                    let iv = i as int;
                    assert(upd =~= orig.update(iv, upd[iv]));
                    let swapped = upd[iv];
                    assert(swapped.location == orig[iv].location);
                    assert(swapped.piece == Some(piece));
                    assert(swapped.attributes@ == orig[iv].attributes@);
                    assert forall|u: int, v: int| 0 <= u < v < upd.len() implies (
                    #[trigger] upd[u].location) != (#[trigger] upd[v].location) by {
                        assert(orig[u].location != orig[v].location);
                        assert(upd[u].location == orig[u].location);
                        assert(upd[v].location == orig[v].location);
                    }
                    lemma_find_tile_at_index(orig, iv);
                    assert forall|j: int| 0 <= j < iv implies (#[trigger] upd[j].location)
                        != *location by {
                        assert(orig[j].location != orig[iv].location);
                    }
                    lemma_find_tile_skip(upd, *location, iv);
                    assert(upd.skip(iv)[0] == swapped);
                    assert(find_tile(upd, *location) == Some(swapped));
                    assert forall|l: Location| l != *location implies #[trigger] find_tile(upd, l)
                        == find_tile(orig, l) by {
                        lemma_find_tile_update_other(orig, iv, swapped, l);
                    }
                }
            },
            Option::None => {
                let mut t = Tile::new(*location);
                t.set_piece(piece);
                self.tiles.push(t);
                proof {
                    let orig = old(self).tiles@;
                    let upd = self.tiles@;
                    let added = upd[orig.len() as int];
                    lemma_find_tile_skip(orig, *location, orig.len() as int);
                    assert(orig.skip(orig.len() as int) =~= Seq::<Tile>::empty());
                    assert forall|u: int, v: int| 0 <= u < v < upd.len() implies (
                    #[trigger] upd[u].location) != (#[trigger] upd[v].location) by {
                        if v < orig.len() {
                            assert(upd[u] == orig[u] && upd[v] == orig[v]);
                        } else {
                            assert(upd[u] == orig[u] && upd[v] == added);
                        }
                    }
                    assert forall|l: Location| #[trigger]
                        find_tile(upd, l) == (if l == *location {
                            Some(added)
                        } else {
                            find_tile(orig, l)
                        }) by {
                        lemma_find_tile_push(orig, added, l);
                    }
                }
            },
        }
    }

    /// The piece occupying the given location, if any.
    pub fn piece_at(&self, location: &Location) -> (p: Option<Piece>)
        requires
            self.wf(),
        ensures
            p == self.spec_piece_at(*location),
    {
        match self.index_of(location) {
            Option::Some(i) => {
                proof {
                    lemma_find_tile_at_index(self.tiles@, i as int);
                }
                self.tiles[i].piece
            },
            Option::None => {
                proof {
                    lemma_find_tile_skip(self.tiles@, *location, self.tiles@.len() as int);
                    assert(self.tiles@.skip(self.tiles@.len() as int) =~= Seq::<Tile>::empty());
                }
                None
            },
        }
    }

    /// The ordered attributes attached at the given location: empty when
    /// the location has no tile.
    pub fn attributes_at(&self, location: &Location) -> (r: Vec<TileAttribute>)
        requires
            self.wf(),
        ensures
            r@ == self.spec_attrs_at(*location),
    {
        match self.index_of(location) {
            Option::Some(i) => {
                proof {
                    lemma_find_tile_at_index(self.tiles@, i as int);
                }
                copy_attributes(&self.tiles[i].attributes)
            },
            Option::None => {
                proof {
                    lemma_find_tile_skip(self.tiles@, *location, self.tiles@.len() as int);
                    assert(self.tiles@.skip(self.tiles@.len() as int) =~= Seq::<Tile>::empty());
                }
                let r: Vec<TileAttribute> = Vec::new();
                proof {
                    assert(r@ =~= Seq::<TileAttribute>::empty());
                }
                r
            },
        }
    }

    /// The attributes attached at each of the given locations, in the
    /// batched form scoring uses: one entry per queried location, in
    /// query order.
    pub fn attributes(&self, locations: &Vec<Location>) -> (r: Vec<(Location, Vec<TileAttribute>)>)
        requires
            self.wf(),
        ensures
            r@.len() == locations@.len(),
            forall|i: int|
                0 <= i < r@.len() ==> (#[trigger] r@[i]).0 == locations@[i] && r@[i].1@
                    == self.spec_attrs_at(locations@[i]),
    {
        let mut r: Vec<(Location, Vec<TileAttribute>)> = Vec::new();
        let n = locations.len();
        let mut i: usize = 0;
        while i < n
            invariant
                self.wf(),
                n == locations@.len(),
                0 <= i <= n,
                r@.len() == i,
                forall|j: int|
                    0 <= j < i ==> (#[trigger] r@[j]).0 == locations@[j] && r@[j].1@
                        == self.spec_attrs_at(locations@[j]),
            decreases n - i,
        {
            let location = locations[i];
            let found = self.attributes_at(&location);
            r.push((location, found));
            i += 1;
        }
        r
    }

    /// A snapshot of the tiles occupied by a piece: every entry mirrors an
    /// occupied location's observations, every occupied location appears,
    /// and the snapshot is empty exactly when nothing is occupied.
    pub fn occupied_tiles(&self) -> (r: Vec<Tile>)
        requires
            self.wf(),
        ensures
            forall|i: int|
                0 <= i < r@.len() ==> (#[trigger] r@[i]).piece is Some && self.spec_piece_at(
                    r@[i].location,
                ) == r@[i].piece && self.spec_attrs_at(r@[i].location) == r@[i].attributes@
                    && self.spec_has_tile(r@[i].location),
            forall|l: Location| #[trigger]
                self.spec_occupied(l) ==> exists|i: int|
                    0 <= i < r@.len() && (#[trigger] r@[i].location) == l,
            (r@.len() == 0) == !self.spec_has_occupied(),
    {
        let mut r: Vec<Tile> = Vec::new();
        let n = self.tiles.len();
        let mut i: usize = 0;
        while i < n
            invariant
                self.wf(),
                n == self.tiles@.len(),
                0 <= i <= n,
                forall|idx: int|
                    0 <= idx < r@.len() ==> (#[trigger] r@[idx]).piece is Some && exists|j: int|
                        0 <= j < i && r@[idx].location == (#[trigger] self.tiles@[j]).location
                            && r@[idx].piece == self.tiles@[j].piece && r@[idx].attributes@
                            == self.tiles@[j].attributes@,
                forall|j: int|
                    0 <= j < i && (#[trigger] self.tiles@[j]).piece is Some ==> exists|idx: int|
                        0 <= idx < r@.len() && (#[trigger] r@[idx].location)
                            == self.tiles@[j].location,
            decreases n - i,
        {
            if self.tiles[i].piece.is_some() {
                let t = Tile {
                    location: self.tiles[i].location,
                    piece: self.tiles[i].piece,
                    attributes: copy_attributes(&self.tiles[i].attributes),
                };
                let ghost prev = r@;
                r.push(t);
                proof {
                    let last = r@.len() - 1;
                    let iv = i as int;
                    assert(forall|idx: int| 0 <= idx < prev.len() ==> r@[idx] == prev[idx]);
                    assert(r@[last] == t);
                    assert(t.location == self.tiles@[iv].location && t.piece == self.tiles@[iv].piece
                        && t.attributes@ == self.tiles@[iv].attributes@);
                    assert forall|idx: int| 0 <= idx < r@.len() implies (#[trigger] r@[idx]).piece
                        is Some && exists|j: int|
                        0 <= j < iv + 1 && r@[idx].location == (#[trigger] self.tiles@[j]).location
                            && r@[idx].piece == self.tiles@[j].piece && r@[idx].attributes@
                            == self.tiles@[j].attributes@ by {
                        if idx < last {
                            let j = choose|j: int|
                                0 <= j < iv && r@[idx].location == (
                                #[trigger] self.tiles@[j]).location && r@[idx].piece
                                    == self.tiles@[j].piece && r@[idx].attributes@
                                    == self.tiles@[j].attributes@;
                            assert(0 <= j < iv + 1 && r@[idx].location == self.tiles@[j].location
                                && r@[idx].piece == self.tiles@[j].piece && r@[idx].attributes@
                                == self.tiles@[j].attributes@);
                        } else {
                            assert(0 <= iv < iv + 1 && r@[idx].location
                                == self.tiles@[iv].location && r@[idx].piece
                                == self.tiles@[iv].piece && r@[idx].attributes@
                                == self.tiles@[iv].attributes@);
                        }
                    }
                    assert forall|j: int|
                        0 <= j < iv + 1 && (#[trigger] self.tiles@[j]).piece is Some implies exists|
                        idx: int,
                    |
                        0 <= idx < r@.len() && (#[trigger] r@[idx].location)
                            == self.tiles@[j].location by {
                        if j < iv {
                            let idx = choose|idx: int|
                                0 <= idx < prev.len() && (#[trigger] prev[idx].location)
                                    == self.tiles@[j].location;
                            assert(0 <= idx < r@.len() && r@[idx].location
                                == self.tiles@[j].location);
                        } else {
                            assert(0 <= last < r@.len() && r@[last].location
                                == self.tiles@[j].location);
                        }
                    }
                }
            }
            i += 1;
        }
        proof {
            assert forall|idx: int| 0 <= idx < r@.len() implies (#[trigger] r@[idx]).piece is Some
                && self.spec_piece_at(r@[idx].location) == r@[idx].piece && self.spec_attrs_at(
                r@[idx].location,
            ) == r@[idx].attributes@ && self.spec_has_tile(r@[idx].location) by {
                let j = choose|j: int|
                    0 <= j < n && r@[idx].location == (#[trigger] self.tiles@[j]).location
                        && r@[idx].piece == self.tiles@[j].piece && r@[idx].attributes@
                        == self.tiles@[j].attributes@;
                lemma_find_tile_at_index(self.tiles@, j);
            }
            assert forall|l: Location| #[trigger] self.spec_occupied(l) implies exists|i_: int|
                0 <= i_ < r@.len() && (#[trigger] r@[i_].location) == l by {
                lemma_find_tile_some(self.tiles@, l);
                let idx = choose|idx: int|
                    0 <= idx < self.tiles@.len() && #[trigger] self.tiles@[idx] == find_tile(
                        self.tiles@,
                        l,
                    )->Some_0 && self.tiles@[idx].location == l;
                assert(self.tiles@[idx].piece is Some);
            }
            if r@.len() > 0 {
                assert(r@[0].piece is Some);
                assert(self.spec_occupied(r@[0].location));
            }
            if self.spec_has_occupied() {
                let l = choose|l: Location| self.spec_occupied(l);
                assert(r@.len() > 0);
            }
        }
        r
    }
}

/// Two piece sequences agree position by position under piece equality,
/// the equality that treats all wildcards alike.
pub open spec fn pieces_equal(a: Seq<Piece>, b: Seq<Piece>) -> bool {
    a.len() == b.len() && forall|i: int| 0 <= i < a.len() ==> #[trigger] a[i].spec_eq(b[i])
}

/// A placement: a specific grouping of pieces with a starting location
/// and an orientation to walk along.
pub trait Placement {
    /// The location of the placement's first piece.
    spec fn spec_start_location(&self) -> Location;

    /// The axis the placement runs along.
    spec fn spec_orientation(&self) -> Orientation;

    /// The ordered pieces of the placement, index 0 at the start location.
    spec fn spec_pieces(&self) -> Seq<Piece>;

    /// Retrieve the starting location of this placement.
    fn start_location(&self) -> (l: &Location)
        ensures
            *l == self.spec_start_location(),
    ;

    /// Retrieve the spatial orientation of this placement (e.g. along the
    /// x axis).
    fn orientation(&self) -> (o: &Orientation)
        ensures
            *o == self.spec_orientation(),
    ;

    /// Retrieve the pieces contained within this placement.
    fn pieces(&self) -> (p: &Vec<Piece>)
        ensures
            p@ == self.spec_pieces(),
    ;
}

/// The concrete placement: an immutable triple of start location,
/// orientation, and ordered piece sequence.
#[derive(Clone, Debug)]
pub struct PlacementImpl {
    pub start_location: Location,
    pub orientation: Orientation,
    pub pieces: Vec<Piece>,
}

impl PlacementImpl {
    /// Placement equality: structural over all three fields, with the
    /// pieces compared position by position under piece equality.
    pub open spec fn spec_eq(self, other: PlacementImpl) -> bool {
        &&& self.start_location == other.start_location
        &&& self.orientation == other.orientation
        &&& pieces_equal(self.pieces@, other.pieces@)
    }

    /// Create a placement of the given pieces, anchored at a starting
    /// location and running along an orientation.
    pub fn new(start_location: Location, orientation: Orientation, pieces: Vec<Piece>) -> (p:
        PlacementImpl)
        ensures
            p.start_location == start_location,
            p.orientation == orientation,
            p.pieces@ == pieces@,
    {
        PlacementImpl { start_location, orientation, pieces }
    }
}

impl Placement for PlacementImpl {
    open spec fn spec_start_location(&self) -> Location {
        self.start_location
    }

    open spec fn spec_orientation(&self) -> Orientation {
        self.orientation
    }

    open spec fn spec_pieces(&self) -> Seq<Piece> {
        self.pieces@
    }

    fn start_location(&self) -> (l: &Location) {
        &self.start_location
    }

    fn orientation(&self) -> (o: &Orientation) {
        &self.orientation
    }

    fn pieces(&self) -> (p: &Vec<Piece>) {
        &self.pieces
    }
}

impl PartialEq for PlacementImpl {
    fn eq(&self, other: &PlacementImpl) -> (r: bool) {
        if self.start_location != other.start_location {
            return false;
        }
        if self.orientation != other.orientation {
            return false;
        }
        if self.pieces.len() != other.pieces.len() {
            return false;
        }
        let n = self.pieces.len();
        let mut i: usize = 0;
        while i < n
            invariant
                n == self.pieces@.len(),
                n == other.pieces@.len(),
                0 <= i <= n,
                forall|j: int| 0 <= j < i ==> #[trigger] self.pieces@[j].spec_eq(other.pieces@[j]),
            decreases n - i,
        {
            if !(self.pieces[i] == other.pieces[i]) {
                return false;
            }
            i += 1;
        }
        true
    }
}

impl vstd::std_specs::cmp::PartialEqSpecImpl for PlacementImpl {
    open spec fn obeys_eq_spec() -> bool {
        true
    }

    open spec fn eq_spec(&self, other: &PlacementImpl) -> bool {
        self.spec_eq(*other)
    }
}

/// Placement equality holds exactly when the start location, the
/// orientation, and the ordered piece sequence all agree; a difference in
/// any one of the three alone makes two placements unequal.
pub proof fn lemma_placement_equality(a: PlacementImpl, b: PlacementImpl)
    ensures
        a.spec_eq(b) <==> (a.start_location == b.start_location && a.orientation == b.orientation
            && pieces_equal(a.pieces@, b.pieces@)),
        a.start_location != b.start_location ==> !a.spec_eq(b),
        a.orientation != b.orientation ==> !a.spec_eq(b),
        !pieces_equal(a.pieces@, b.pieces@) ==> !a.spec_eq(b),
{
}

/// The location with the given integer coordinates, which must fit `i32`
/// to name an addressable cell.
pub open spec fn loc_at(p: (int, int, int)) -> Location {
    Location { x: p.0 as i32, y: p.1 as i32, z: p.2 as i32 }
}

/// The location of the `k`-th tile of a run anchored at `start` along
/// `orientation`.
pub open spec fn spec_run_location(start: Location, orientation: Orientation, k: int) -> Location {
    loc_at(orientation.spec_go(start, k))
}

/// Whether the `k`-th tile of the run lies within the dimension.
pub open spec fn run_in_dimension(
    d: Dimension,
    start: Location,
    orientation: Orientation,
    k: int,
) -> bool {
    let p = orientation.spec_go(start, k);
    d.spec_contains(p.0, p.1, p.2)
}

/// The separation within which two locations count as adjacent: at most
/// one step on every axis.
pub open spec fn spec_unit_distance() -> Distance {
    Distance { x: 1, y: 1, z: 1 }
}

/// Sequential application of a tile's attributes to a value, in
/// attachment order: each attribute's output feeds the next one's input.
pub open spec fn spec_apply_attributes(
    attributes: Seq<TileAttribute>,
    value: int,
    distance: Distance,
    same_word: bool,
) -> int
    decreases attributes.len(),
{
    if attributes.len() == 0 {
        value
    } else {
        spec_apply_attributes(
            attributes.skip(1),
            attributes[0].spec_modify(value, distance, same_word),
            distance,
            same_word,
        )
    }
}

/// The `k`-th run location of a placement, computed exactly; the caller
/// must know the coordinates fit `i32`.
fn run_location(start: &Location, orientation: &Orientation, k: usize) -> (l: Location)
    requires
        k <= 0x7fff_ffff,
        ({
            let p = orientation.spec_go(*start, k as int);
            i32::MIN <= p.0 <= i32::MAX && i32::MIN <= p.1 <= i32::MAX && i32::MIN <= p.2
                <= i32::MAX
        }),
    ensures
        l == spec_run_location(*start, *orientation, k as int),
{
    let amount: i64 = k as i64;
    match orientation {
        Orientation::X => Location {
            x: (start.x as i64 + amount) as i32,
            y: start.y,
            z: start.z,
        },
        Orientation::Y => Location {
            x: start.x,
            y: (start.y as i64 + amount) as i32,
            z: start.z,
        },
        Orientation::Z => Location {
            x: start.x,
            y: start.y,
            z: (start.z as i64 + amount) as i32,
        },
    }
}

/// The playing area for a game: a dimensioned set of tiles, a designated
/// starting location that anchors the first placement, and the set of
/// orientations a placement may run along.
///
/// Invariant (`wf`): the tile set is unambiguous, every extent is
/// positive and at most `i32::MAX` (larger cells could not be addressed
/// by a `Location`), and the starting location lies within the dimension.
#[derive(Clone, Debug)]
pub struct Board {
    pub tiles: TileSet,
    pub dimension: Dimension,
    pub start: Location,
    pub orientations: Vec<Orientation>,
}

impl Board {
    /// The board's internal invariant; every constructor establishes it
    /// and every method preserves it.
    pub open spec fn wf(self) -> bool {
        &&& self.tiles.wf()
        &&& self.dimension.wf()
        &&& self.dimension.width <= i32::MAX
        &&& self.dimension.height <= i32::MAX
        &&& self.dimension.depth <= i32::MAX
        &&& self.dimension.spec_contains(
            self.start.x as int,
            self.start.y as int,
            self.start.z as int,
        )
    }

    /// Rule 1: every tile of the run lies within the dimension.
    pub open spec fn spec_in_bounds(
        self,
        start: Location,
        orientation: Orientation,
        len: int,
    ) -> bool {
        forall|k: int|
            0 <= k < len ==> #[trigger] run_in_dimension(self.dimension, start, orientation, k)
    }

    /// Rule 2: a target tile that already holds a piece must hold one
    /// equal to the piece placed there; empty targets accept anything.
    pub open spec fn spec_compatible(
        self,
        start: Location,
        orientation: Orientation,
        pieces: Seq<Piece>,
    ) -> bool {
        forall|k: int|
            0 <= k < pieces.len() ==> match self.tiles.spec_piece_at(
                #[trigger] spec_run_location(start, orientation, k),
            ) {
                Option::None => true,
                Option::Some(q) => q.spec_eq(pieces[k]),
            }
    }

    /// Rule 4: on an empty board, the run must cover the board's starting
    /// location.
    pub open spec fn spec_covers_start(
        self,
        start: Location,
        orientation: Orientation,
        len: int,
    ) -> bool {
        exists|k: int|
            0 <= k < len && #[trigger] spec_run_location(start, orientation, k) == self.start
    }

    /// Rule 5: on a non-empty board, some tile of the run overlaps or is
    /// adjacent to some occupied tile.
    pub open spec fn spec_connected(
        self,
        start: Location,
        orientation: Orientation,
        len: int,
    ) -> bool {
        exists|k: int, l: Location|
            #![trigger spec_run_location(start, orientation, k), self.tiles.spec_occupied(l)]
            0 <= k < len && self.tiles.spec_occupied(l) && spec_run_location(
                start,
                orientation,
                k,
            ).spec_is_within(spec_unit_distance(), l)
    }

    /// A placement is valid when its run stays in bounds, overwrites no
    /// incompatible piece, runs along an allowed orientation, and either
    /// covers the starting location (empty board) or touches an occupied
    /// tile (non-empty board).
    pub open spec fn spec_valid(
        self,
        start: Location,
        orientation: Orientation,
        pieces: Seq<Piece>,
    ) -> bool {
        &&& self.spec_in_bounds(start, orientation, pieces.len() as int)
        &&& self.spec_compatible(start, orientation, pieces)
        &&& self.orientations@.contains(orientation)
        &&& if self.tiles.spec_has_occupied() {
            self.spec_connected(start, orientation, pieces.len() as int)
        } else {
            self.spec_covers_start(start, orientation, pieces.len() as int)
        }
    }

    /// The points the `k`-th tile of the run contributes: the piece's
    /// value, passed through every attribute on that tile in attachment
    /// order, at zero separation and within the same word.
    pub open spec fn spec_tile_points(
        self,
        start: Location,
        orientation: Orientation,
        pieces: Seq<Piece>,
        k: int,
    ) -> int {
        spec_apply_attributes(
            self.tiles.spec_attrs_at(spec_run_location(start, orientation, k)),
            pieces[k].value as int,
            Distance::spec_zero(),
            true,
        )
    }

    /// The accumulated points of the first `k` tiles of the run, each
    /// addition saturating at the `i32` bounds.
    pub open spec fn spec_points_up_to(
        self,
        start: Location,
        orientation: Orientation,
        pieces: Seq<Piece>,
        k: int,
    ) -> int
        decreases k,
    {
        if k <= 0 {
            0
        } else {
            clamp_i32(
                self.spec_points_up_to(start, orientation, pieces, k - 1) + self.spec_tile_points(
                    start,
                    orientation,
                    pieces,
                    k - 1,
                ),
            )
        }
    }

    /// The points the whole placement scores.
    pub open spec fn spec_points(
        self,
        start: Location,
        orientation: Orientation,
        pieces: Seq<Piece>,
    ) -> int {
        self.spec_points_up_to(start, orientation, pieces, pieces.len() as int)
    }

    /// Create an empty board. The extents must be positive, fit `i32`,
    /// and contain the starting location; violating that is a caller bug,
    /// not a recoverable error.
    pub fn new(dimension: Dimension, start: Location, orientations: Vec<Orientation>) -> (board:
        Board)
        requires
            dimension.wf(),
            dimension.width <= i32::MAX,
            dimension.height <= i32::MAX,
            dimension.depth <= i32::MAX,
            dimension.spec_contains(start.x as int, start.y as int, start.z as int),
        ensures
            board.wf(),
            board.dimension == dimension,
            board.start == start,
            board.orientations == orientations,
            !board.tiles.spec_has_occupied(),
            forall|l: Location| !(#[trigger] board.tiles.spec_has_tile(l)),
            forall|l: Location| #[trigger] board.tiles.spec_piece_at(l) is None,
            forall|l: Location| #[trigger]
                board.tiles.spec_attrs_at(l) == Seq::<TileAttribute>::empty(),
    {
        Board { tiles: TileSet::new(), dimension, start, orientations }
    }

    /// Retrieve the sizing of this board.
    pub fn dimension(&self) -> (d: Dimension)
        ensures
            d == self.dimension,
    {
        self.dimension
    }

    /// Retrieve the starting location for this board: the mandatory
    /// anchor of the first placement.
    pub fn start(&self) -> (l: Location)
        ensures
            l == self.start,
    {
        self.start
    }

    /// Retrieve the set of tiles that make up this board.
    pub fn tiles(&self) -> (t: &TileSet)
        ensures
            t == &self.tiles,
    {
        &self.tiles
    }

    /// Retrieve the allowed placement orientations for the board, in the
    /// order they were given.
    pub fn orientations(&self) -> (os: &Vec<Orientation>)
        ensures
            os@ == self.orientations@,
    {
        &self.orientations
    }

    /// Whether the given placement is valid on this board in its current
    /// state: the non-throwing probe counterpart of `place`.
    pub fn valid<P: Placement>(&self, placement: &P) -> (r: bool)
        requires
            self.wf(),
        ensures
            r == self.spec_valid(
                placement.spec_start_location(),
                placement.spec_orientation(),
                placement.spec_pieces(),
            ),
    {
        let start: &Location = placement.start_location();
        let orientation: &Orientation = placement.orientation();
        let pieces: &Vec<Piece> = placement.pieces();
        let n = pieces.len();
        let ghost gs = placement.spec_start_location();
        let ghost go = placement.spec_orientation();
        let ghost gp = placement.spec_pieces();

        // Rule 1: the run must stay within the dimension. A run longer
        // than any extent cannot fit, which also keeps the coordinate
        // arithmetic below in range.
        if n > 0x7fff_ffff {
            proof {
                if self.spec_in_bounds(gs, go, gp.len() as int) {
                    assert(run_in_dimension(self.dimension, gs, go, 0));
                    assert(run_in_dimension(self.dimension, gs, go, 0x7fff_ffff));
                }
            }
            return false;
        }
        let mut k: usize = 0;
        while k < n
            invariant
                self.wf(),
                *start == gs,
                *orientation == go,
                pieces@ == gp,
                gs == placement.spec_start_location(),
                go == placement.spec_orientation(),
                gp == placement.spec_pieces(),
                n == gp.len(),
                n <= 0x7fff_ffff,
                0 <= k <= n,
                forall|j: int|
                    0 <= j < k ==> #[trigger] run_in_dimension(self.dimension, gs, go, j),
            decreases n - k,
        {
            let coords: (i64, i64, i64) = match orientation {
                Orientation::X => (start.x as i64 + k as i64, start.y as i64, start.z as i64),
                Orientation::Y => (start.x as i64, start.y as i64 + k as i64, start.z as i64),
                Orientation::Z => (start.x as i64, start.y as i64, start.z as i64 + k as i64),
            };
            if !(coords.0 >= 0 && coords.0 < self.dimension.width as i64 && coords.1 >= 0
                && coords.1 < self.dimension.height as i64 && coords.2 >= 0 && coords.2
                < self.dimension.depth as i64) {
                proof {
                    assert(!run_in_dimension(self.dimension, gs, go, k as int));
                }
                return false;
            }
            proof {
                assert(run_in_dimension(self.dimension, gs, go, k as int));
            }
            k += 1;
        }
        proof {
            assert(self.spec_in_bounds(gs, go, gp.len() as int));
        }

        // Rule 2: an occupied target tile must hold an equal piece.
        let mut k: usize = 0;
        while k < n
            invariant
                self.wf(),
                *start == gs,
                *orientation == go,
                pieces@ == gp,
                gs == placement.spec_start_location(),
                go == placement.spec_orientation(),
                gp == placement.spec_pieces(),
                n == gp.len(),
                n <= 0x7fff_ffff,
                self.spec_in_bounds(gs, go, gp.len() as int),
                0 <= k <= n,
                forall|j: int|
                    0 <= j < k ==> match self.tiles.spec_piece_at(
                        #[trigger] spec_run_location(gs, go, j),
                    ) {
                        Option::None => true,
                        Option::Some(q) => q.spec_eq(gp[j]),
                    },
            decreases n - k,
        {
            proof {
                assert(run_in_dimension(self.dimension, gs, go, k as int));
            }
            let target = run_location(start, orientation, k);
            match self.tiles.piece_at(&target) {
                Option::Some(q) => {
                    if !(q == pieces[k]) {
                        proof {
                            assert(!self.spec_compatible(gs, go, gp));
                        }
                        return false;
                    }
                },
                Option::None => {},
            }
            k += 1;
        }
        proof {
            assert(self.spec_compatible(gs, go, gp));
        }

        // Rule 3: the orientation must be one the board allows.
        let m = self.orientations.len();
        let mut oi: usize = 0;
        let mut allowed = false;
        while oi < m
            invariant
                m == self.orientations@.len(),
                *orientation == go,
                0 <= oi <= m,
                allowed ==> self.orientations@.contains(go),
                !allowed ==> forall|j: int| 0 <= j < oi ==> self.orientations@[j] != go,
            decreases m - oi,
        {
            if self.orientations[oi] == *orientation {
                proof {
                    assert(self.orientations@[oi as int] == go);
                }
                allowed = true;
            }
            oi += 1;
        }
        if !allowed {
            proof {
                if self.orientations@.contains(go) {
                    let j = choose|j: int|
                        0 <= j < self.orientations@.len() && self.orientations@[j] == go;
                    assert(self.orientations@[j] != go);
                }
            }
            return false;
        }

        // Rules 4 and 5: anchor the first placement at the start
        // location; connect every later one to an occupied tile.
        let occupied = self.tiles.occupied_tiles();
        if occupied.len() == 0 {
            let mut k: usize = 0;
            while k < n
                invariant
                    self.wf(),
                    *start == gs,
                    *orientation == go,
                    pieces@ == gp,
                    gs == placement.spec_start_location(),
                    go == placement.spec_orientation(),
                    gp == placement.spec_pieces(),
                    n == gp.len(),
                    n <= 0x7fff_ffff,
                    self.spec_in_bounds(gs, go, gp.len() as int),
                    self.spec_compatible(gs, go, gp),
                    self.orientations@.contains(go),
                    !self.tiles.spec_has_occupied(),
                    0 <= k <= n,
                    forall|j: int|
                        0 <= j < k ==> #[trigger] spec_run_location(gs, go, j) != self.start,
                decreases n - k,
            {
                proof {
                    assert(run_in_dimension(self.dimension, gs, go, k as int));
                }
                let target = run_location(start, orientation, k);
                if target == self.start {
                    proof {
                        assert(self.spec_covers_start(gs, go, gp.len() as int));
                    }
                    return true;
                }
                k += 1;
            }
            proof {
                if self.spec_covers_start(gs, go, gp.len() as int) {
                    let j = choose|j: int|
                        0 <= j < gp.len() && #[trigger] spec_run_location(gs, go, j) == self.start;
                    assert(spec_run_location(gs, go, j) != self.start);
                }
            }
            return false;
        } else {
            let one = Distance { x: 1, y: 1, z: 1 };
            let on = occupied.len();
            let mut k: usize = 0;
            while k < n
                invariant
                    self.wf(),
                    *start == gs,
                    *orientation == go,
                    pieces@ == gp,
                    gs == placement.spec_start_location(),
                    go == placement.spec_orientation(),
                    gp == placement.spec_pieces(),
                    n == gp.len(),
                    n <= 0x7fff_ffff,
                    self.spec_in_bounds(gs, go, gp.len() as int),
                    self.spec_compatible(gs, go, gp),
                    self.orientations@.contains(go),
                    self.tiles.spec_has_occupied(),
                    on == occupied@.len(),
                    on > 0,
                    one == spec_unit_distance(),
                    forall|ii: int|
                        0 <= ii < on ==> (#[trigger] occupied@[ii]).piece is Some
                            && self.tiles.spec_piece_at(occupied@[ii].location)
                            == occupied@[ii].piece,
                    forall|l: Location| #[trigger]
                        self.tiles.spec_occupied(l) ==> exists|ii: int|
                            0 <= ii < on && (#[trigger] occupied@[ii].location) == l,
                    0 <= k <= n,
                    forall|j: int, l: Location|
                        #![trigger spec_run_location(gs, go, j), self.tiles.spec_occupied(l)]
                        0 <= j < k && self.tiles.spec_occupied(l) ==> !spec_run_location(
                            gs,
                            go,
                            j,
                        ).spec_is_within(spec_unit_distance(), l),
                decreases n - k,
            {
                proof {
                    assert(run_in_dimension(self.dimension, gs, go, k as int));
                }
                let target = run_location(start, orientation, k);
                let mut oi: usize = 0;
                while oi < on
                    invariant
                        gs == placement.spec_start_location(),
                        go == placement.spec_orientation(),
                        gp == placement.spec_pieces(),
                        n == gp.len(),
                        0 <= k < n,
                        self.spec_in_bounds(gs, go, gp.len() as int),
                        self.spec_compatible(gs, go, gp),
                        self.orientations@.contains(go),
                        self.tiles.spec_has_occupied(),
                        on == occupied@.len(),
                        target == spec_run_location(gs, go, k as int),
                        one == spec_unit_distance(),
                        forall|ii: int|
                            0 <= ii < on ==> (#[trigger] occupied@[ii]).piece is Some
                                && self.tiles.spec_piece_at(occupied@[ii].location)
                                == occupied@[ii].piece,
                        0 <= oi <= on,
                        forall|ii: int|
                            0 <= ii < oi ==> !target.spec_is_within(
                                spec_unit_distance(),
                                (#[trigger] occupied@[ii]).location,
                            ),
                    decreases on - oi,
                {
                    let neighbor = occupied[oi].location;
                    if target.is_within(&one, &neighbor) {
                        proof {
                            assert(self.tiles.spec_occupied(occupied@[oi as int].location));
                        }
                        return true;
                    }
                    oi += 1;
                }
                proof {
                    assert forall|l: Location| self.tiles.spec_occupied(l) implies !target
                        .spec_is_within(spec_unit_distance(), l) by {
                        let ii = choose|ii: int|
                            0 <= ii < on && (#[trigger] occupied@[ii].location) == l;
                        assert(!target.spec_is_within(spec_unit_distance(), occupied@[ii].location));
                    }
                }
                k += 1;
            }
            proof {
                if self.spec_connected(gs, go, gp.len() as int) {
                    let (j, l) = choose|j: int, l: Location|
                        #![trigger spec_run_location(gs, go, j), self.tiles.spec_occupied(l)]
                        0 <= j < gp.len() && self.tiles.spec_occupied(l) && spec_run_location(
                            gs,
                            go,
                            j,
                        ).spec_is_within(spec_unit_distance(), l);
                    assert(!spec_run_location(gs, go, j).spec_is_within(spec_unit_distance(), l));
                }
            }
            return false;
        }
    }

    /// Calculate the points the given placement would score, without
    /// changing the board: each tile of the run contributes its piece's
    /// value as modified by that tile's attributes, in attachment order.
    pub fn calculate_points<P: Placement>(&self, placement: &P) -> (points: i32)
        requires
            self.wf(),
            self.spec_in_bounds(
                placement.spec_start_location(),
                placement.spec_orientation(),
                placement.spec_pieces().len() as int,
            ),
        ensures
            points as int == self.spec_points(
                placement.spec_start_location(),
                placement.spec_orientation(),
                placement.spec_pieces(),
            ),
    {
        let start: &Location = placement.start_location();
        let orientation: &Orientation = placement.orientation();
        let pieces: &Vec<Piece> = placement.pieces();
        let n = pieces.len();
        let ghost gs = placement.spec_start_location();
        let ghost go = placement.spec_orientation();
        let ghost gp = placement.spec_pieces();
        proof {
            if n > 0x7fff_ffff {
                assert(run_in_dimension(self.dimension, gs, go, 0));
                assert(run_in_dimension(self.dimension, gs, go, 0x7fff_ffff));
            }
        }
        let zero_separation = Distance::zero();
        let mut total: i32 = 0;
        let mut k: usize = 0;
        while k < n
            invariant
                self.wf(),
                *start == gs,
                *orientation == go,
                pieces@ == gp,
                gs == placement.spec_start_location(),
                go == placement.spec_orientation(),
                gp == placement.spec_pieces(),
                n == gp.len(),
                n <= 0x7fff_ffff,
                self.spec_in_bounds(gs, go, gp.len() as int),
                zero_separation == Distance::spec_zero(),
                0 <= k <= n,
                total as int == self.spec_points_up_to(gs, go, gp, k as int),
            decreases n - k,
        {
            proof {
                assert(run_in_dimension(self.dimension, gs, go, k as int));
            }
            let target = run_location(start, orientation, k);
            let attributes = self.tiles.attributes_at(&target);
            let m = attributes.len();
            let mut value: i32 = pieces[k].value;
            let ghost base = value as int;
            let mut j: usize = 0;
            proof {
                assert(attributes@.skip(0) =~= attributes@);
            }
            while j < m
                invariant
                    m == attributes@.len(),
                    zero_separation == Distance::spec_zero(),
                    0 <= j <= m,
                    spec_apply_attributes(attributes@, base, Distance::spec_zero(), true)
                        == spec_apply_attributes(
                        attributes@.skip(j as int),
                        value as int,
                        Distance::spec_zero(),
                        true,
                    ),
                decreases m - j,
            {
                proof {
                    assert(attributes@.skip(j as int)[0] == attributes@[j as int]);
                    assert(attributes@.skip(j as int).skip(1) =~= attributes@.skip(j as int + 1));
                }
                value = attributes[j].modify_value(value, &zero_separation, true);
                j += 1;
            }
            proof {
                assert(attributes@.skip(m as int) =~= Seq::<TileAttribute>::empty());
                assert(value as int == spec_apply_attributes(
                    attributes@,
                    base,
                    Distance::spec_zero(),
                    true,
                ));
                assert(value as int == self.spec_tile_points(gs, go, gp, k as int));
            }
            total = add_clamped(total, value);
            k += 1;
        }
        total
    }

    /// Commit the given placement to this board: revalidate it, write its
    /// pieces onto the run's tiles, and return the points scored. An
    /// invalid placement fails with `InvalidPlacement` and mutates
    /// nothing; tile writes happen only after the whole placement is
    /// confirmed legal.
    pub fn place<P: Placement>(&mut self, placement: &P) -> (result: Result<i32, Error>)
        requires
            old(self).wf(),
        ensures
            final (self).wf(),
            final (self).dimension == old(self).dimension,
            final (self).start == old(self).start,
            final (self).orientations == old(self).orientations,
            !old(self).spec_valid(
                placement.spec_start_location(),
                placement.spec_orientation(),
                placement.spec_pieces(),
            ) ==> result is Err && result->Err_0.kind == ErrorKind::InvalidPlacement && *final (
            self) == *old(self),
            old(self).spec_valid(
                placement.spec_start_location(),
                placement.spec_orientation(),
                placement.spec_pieces(),
            ) ==> ({
                &&& result is Ok
                &&& result->Ok_0 as int == old(self).spec_points(
                    placement.spec_start_location(),
                    placement.spec_orientation(),
                    placement.spec_pieces(),
                )
                &&& forall|k: int|
                    0 <= k < placement.spec_pieces().len() ==> final (self).tiles.spec_piece_at(
                        #[trigger] spec_run_location(
                            placement.spec_start_location(),
                            placement.spec_orientation(),
                            k,
                        ),
                    ) == Some(placement.spec_pieces()[k])
                &&& forall|l: Location|
                    (forall|k: int|
                        0 <= k < placement.spec_pieces().len() ==> l != #[trigger] spec_run_location(
                            placement.spec_start_location(),
                            placement.spec_orientation(),
                            k,
                        )) ==> #[trigger] final (self).tiles.spec_piece_at(l) == old(
                        self,
                    ).tiles.spec_piece_at(l)
                &&& forall|l: Location| #[trigger]
                    final (self).tiles.spec_attrs_at(l) == old(self).tiles.spec_attrs_at(l)
            }),
    {
        let ghost gs = placement.spec_start_location();
        let ghost go = placement.spec_orientation();
        let ghost gp = placement.spec_pieces();
        if !self.valid(placement) {
            return Err(
                Error {
                    kind: ErrorKind::InvalidPlacement,
                    message: "placement violates the board's validation rules".to_owned(),
                },
            );
        }
        let points = self.calculate_points(placement);
        let start: &Location = placement.start_location();
        let orientation: &Orientation = placement.orientation();
        let pieces: &Vec<Piece> = placement.pieces();
        let n = pieces.len();
        proof {
            if n > 0x7fff_ffff {
                assert(run_in_dimension(self.dimension, gs, go, 0));
                assert(run_in_dimension(self.dimension, gs, go, 0x7fff_ffff));
            }
        }
        let mut k: usize = 0;
        while k < n
            invariant
                self.wf(),
                self.dimension == old(self).dimension,
                self.start == old(self).start,
                self.orientations == old(self).orientations,
                *start == gs,
                *orientation == go,
                pieces@ == gp,
                gs == placement.spec_start_location(),
                go == placement.spec_orientation(),
                gp == placement.spec_pieces(),
                n == gp.len(),
                n <= 0x7fff_ffff,
                self.spec_in_bounds(gs, go, gp.len() as int),
                0 <= k <= n,
                forall|j: int|
                    0 <= j < k ==> self.tiles.spec_piece_at(
                        #[trigger] spec_run_location(gs, go, j),
                    ) == Some(gp[j]),
                forall|l: Location|
                    (forall|j: int|
                        0 <= j < k ==> l != #[trigger] spec_run_location(gs, go, j))
                        ==> #[trigger] self.tiles.spec_piece_at(l) == old(
                        self,
                    ).tiles.spec_piece_at(l),
                forall|l: Location| #[trigger]
                    self.tiles.spec_attrs_at(l) == old(self).tiles.spec_attrs_at(l),
            decreases n - k,
        {
            proof {
                assert(run_in_dimension(self.dimension, gs, go, k as int));
            }
            let target = run_location(start, orientation, k);
            let ghost before = self.tiles;
            self.tiles.set_piece(&target, pieces[k]);
            proof {
                let kv = k as int;
                assert forall|j: int| 0 <= j < kv implies spec_run_location(gs, go, j)
                    != spec_run_location(gs, go, kv) by {
                    assert(run_in_dimension(self.dimension, gs, go, j));
                    assert(run_in_dimension(self.dimension, gs, go, kv));
                }
                assert forall|j: int| 0 <= j < kv + 1 implies self.tiles.spec_piece_at(
                    #[trigger] spec_run_location(gs, go, j),
                ) == Some(gp[j]) by {
                    if j < kv {
                        assert(spec_run_location(gs, go, j) != target);
                        assert(before.spec_piece_at(spec_run_location(gs, go, j)) == Some(gp[j]));
                    }
                }
                assert forall|l: Location|
                    (forall|j: int|
                        0 <= j < kv + 1 ==> l != #[trigger] spec_run_location(
                            gs,
                            go,
                            j,
                        )) implies #[trigger] self.tiles.spec_piece_at(l) == old(
                    self,
                ).tiles.spec_piece_at(l) by {
                    assert(l != spec_run_location(gs, go, kv));
                    assert(l != target);
                    assert(forall|j: int| 0 <= j < kv ==> l != #[trigger] spec_run_location(gs, go, j));
                    assert(before.spec_piece_at(l) == old(self).tiles.spec_piece_at(l));
                }
            }
            k += 1;
        }
        Ok(points)
    }
}

} // verus!
