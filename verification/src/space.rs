use vstd::prelude::*;

use vstd::arithmetic::div_mod::{
    lemma_div_is_ordered, lemma_div_pos_is_pos, lemma_fundamental_div_mod_converse,
};

pub mod vector;

verus! {

/// The magnitude of an integer: `v` made non-negative.
pub open spec fn magnitude(v: int) -> int {
    if v < 0 {
        -v
    } else {
        v
    }
}

/// A container in two- or three-dimensional space.
///
/// Invariant (`wf`): every extent is at least 1.
#[derive(Clone, Copy, Debug, Hash, PartialEq, Eq, Structural)]
pub struct Dimension {
    pub width: u32,
    pub height: u32,
    pub depth: u32,
}

/// Argument forms accepted by [`Dimension::of`]: a (width, height) pair,
/// where depth defaults to 1, or a (width, height, depth) triple.
pub trait DimensionOf {
    /// Whether every extent that this argument form denotes is positive.
    spec fn of_ok(self) -> bool;

    /// The dimension that this argument form denotes.
    spec fn spec_of(self) -> Dimension;

    /// Build the dimension that this argument form denotes.
    ///
    /// Constructing a dimension with a zero extent is a caller bug, kept out
    /// by the precondition rather than reported as a recoverable error.
    fn of(self) -> (d: Dimension)
        requires
            self.of_ok(),
        ensures
            d == self.spec_of(),
            d.wf(),
    ;
}

impl DimensionOf for (u32, u32) {
    open spec fn of_ok(self) -> bool {
        self.0 >= 1 && self.1 >= 1
    }

    open spec fn spec_of(self) -> Dimension {
        Dimension { width: self.0, height: self.1, depth: 1 }
    }

    fn of(self) -> (d: Dimension) {
        Dimension { width: self.0, height: self.1, depth: 1 }
    }
}

impl DimensionOf for (u32, u32, u32) {
    open spec fn of_ok(self) -> bool {
        self.0 >= 1 && self.1 >= 1 && self.2 >= 1
    }

    open spec fn spec_of(self) -> Dimension {
        Dimension { width: self.0, height: self.1, depth: self.2 }
    }

    fn of(self) -> (d: Dimension) {
        Dimension { width: self.0, height: self.1, depth: self.2 }
    }
}

impl Dimension {
    /// Every extent is positive: a dimension never describes an empty box.
    pub open spec fn wf(self) -> bool {
        self.width >= 1 && self.height >= 1 && self.depth >= 1
    }

    /// Whether a location with the given integer coordinates lies inside
    /// this dimension: each coordinate is in `[0, extent)` on its axis.
    pub open spec fn spec_contains(self, x: int, y: int, z: int) -> bool {
        &&& 0 <= x < self.width
        &&& 0 <= y < self.height
        &&& 0 <= z < self.depth
    }

    /// Build a dimension from a (width, height) pair or a
    /// (width, height, depth) triple; every extent must be positive.
    pub fn of<A: DimensionOf>(args: A) -> (d: Dimension)
        requires
            args.of_ok(),
        ensures
            d == args.spec_of(),
            d.wf(),
    {
        args.of()
    }

    /// Build a dimension, rejecting non-positive extents instead of
    /// requiring the caller to rule them out.
    pub fn try_of(width: u32, height: u32, depth: u32) -> (d: Option<Dimension>)
        ensures
            d is Some <==> width >= 1 && height >= 1 && depth >= 1,
            d is Some ==> d->Some_0 == (Dimension { width, height, depth }) && d->Some_0.wf(),
    {
        if width >= 1 && height >= 1 && depth >= 1 {
            Some(Dimension { width, height, depth })
        } else {
            None
        }
    }

    /// The extent along the x axis.
    pub fn width(&self) -> (w: u32)
        ensures
            w == self.width,
    {
        self.width
    }

    /// The extent along the y axis.
    pub fn height(&self) -> (h: u32)
        ensures
            h == self.height,
    {
        self.height
    }

    /// The extent along the z axis.
    pub fn depth(&self) -> (d: u32)
        ensures
            d == self.depth,
    {
        self.depth
    }

    /// Whether the given location lies inside this dimension: true exactly
    /// when every coordinate is non-negative and strictly below the extent
    /// on its axis.
    pub fn contains(&self, location: &Location) -> (r: bool)
        ensures
            r == self.spec_contains(location.x as int, location.y as int, location.z as int),
    {
        let x: i64 = location.x as i64;
        let y: i64 = location.y as i64;
        let z: i64 = location.z as i64;

        0 <= x && x < self.width as i64 && 0 <= y && y < self.height as i64 && 0 <= z
            && z < self.depth as i64
    }
}

/// The absolute separation between two [`Location`] instances: a magnitude
/// of separation on each axis, never a direction.
///
/// Invariant (`wf`): every component is non-negative.
#[derive(Clone, Copy, Debug, Hash, PartialEq, Eq, Structural)]
pub struct Distance {
    pub x: i32,
    pub y: i32,
    pub z: i32,
}

/// Argument forms accepted by [`Distance::of`]: an (x, y) pair of signed
/// deltas, where z defaults to 0, or an (x, y, z) triple of signed deltas.
/// The distance stores each delta's magnitude.
pub trait DistanceOf {
    /// Whether every delta's magnitude is representable.
    spec fn of_ok(self) -> bool;

    /// The distance that this argument form denotes.
    spec fn spec_of(self) -> Distance;

    /// Build the distance that this argument form denotes.
    fn of(self) -> (d: Distance)
        requires
            self.of_ok(),
        ensures
            d == self.spec_of(),
            d.wf(),
    ;
}

impl DistanceOf for (i32, i32) {
    open spec fn of_ok(self) -> bool {
        self.0 > i32::MIN && self.1 > i32::MIN
    }

    open spec fn spec_of(self) -> Distance {
        Distance {
            x: magnitude(self.0 as int) as i32,
            y: magnitude(self.1 as int) as i32,
            z: 0,
        }
    }

    fn of(self) -> (d: Distance) {
        Distance {
            x: if self.0 < 0 {
                -self.0
            } else {
                self.0
            },
            y: if self.1 < 0 {
                -self.1
            } else {
                self.1
            },
            z: 0,
        }
    }
}

impl DistanceOf for (i32, i32, i32) {
    open spec fn of_ok(self) -> bool {
        self.0 > i32::MIN && self.1 > i32::MIN && self.2 > i32::MIN
    }

    open spec fn spec_of(self) -> Distance {
        Distance {
            x: magnitude(self.0 as int) as i32,
            y: magnitude(self.1 as int) as i32,
            z: magnitude(self.2 as int) as i32,
        }
    }

    fn of(self) -> (d: Distance) {
        Distance {
            x: if self.0 < 0 {
                -self.0
            } else {
                self.0
            },
            y: if self.1 < 0 {
                -self.1
            } else {
                self.1
            },
            z: if self.2 < 0 {
                -self.2
            } else {
                self.2
            },
        }
    }
}

impl Distance {
    /// Every component is non-negative: a distance is a magnitude, never a
    /// direction.
    pub open spec fn wf(self) -> bool {
        self.x >= 0 && self.y >= 0 && self.z >= 0
    }

    /// The distance with every component zero.
    pub open spec fn spec_zero() -> Distance {
        Distance { x: 0, y: 0, z: 0 }
    }

    /// The largest representable distance.
    pub open spec fn spec_max() -> Distance {
        Distance { x: i32::MAX, y: i32::MAX, z: i32::MAX }
    }

    /// The separation between two locations: the magnitude of their
    /// coordinate difference on each axis.
    pub open spec fn spec_between(start: Location, end: Location) -> Distance {
        Distance {
            x: magnitude(end.x - start.x) as i32,
            y: magnitude(end.y - start.y) as i32,
            z: magnitude(end.z - start.z) as i32,
        }
    }

    /// Whether every component of this distance is at most the
    /// corresponding component of the bound.
    pub open spec fn spec_is_within(self, bound: Distance) -> bool {
        self.x <= bound.x && self.y <= bound.y && self.z <= bound.z
    }

    /// The shared zero-separation sentinel.
    pub fn zero() -> (d: Distance)
        ensures
            d == Distance::spec_zero(),
            d.wf(),
    {
        Distance { x: 0, y: 0, z: 0 }
    }

    /// The shared maximal-separation sentinel.
    pub fn max() -> (d: Distance)
        ensures
            d == Distance::spec_max(),
            d.wf(),
    {
        Distance { x: i32::MAX, y: i32::MAX, z: i32::MAX }
    }

    /// Build a distance from signed deltas, storing each delta's magnitude.
    pub fn of<A: DistanceOf>(args: A) -> (d: Distance)
        requires
            args.of_ok(),
        ensures
            d == args.spec_of(),
            d.wf(),
    {
        args.of()
    }

    /// The separation along the x axis.
    pub fn x(&self) -> (x: i32)
        ensures
            x == self.x,
    {
        self.x
    }

    /// The separation along the y axis.
    pub fn y(&self) -> (y: i32)
        ensures
            y == self.y,
    {
        self.y
    }

    /// The separation along the z axis.
    pub fn z(&self) -> (z: i32)
        ensures
            z == self.z,
    {
        self.z
    }

    /// The separation between the two given locations.
    pub fn between(start: &Location, end: &Location) -> (d: Distance)
        requires
            magnitude(end.x - start.x) <= i32::MAX,
            magnitude(end.y - start.y) <= i32::MAX,
            magnitude(end.z - start.z) <= i32::MAX,
        ensures
            d == Distance::spec_between(*start, *end),
            d.wf(),
    {
        let dx: i64 = end.x as i64 - start.x as i64;
        let dy: i64 = end.y as i64 - start.y as i64;
        let dz: i64 = end.z as i64 - start.z as i64;

        Distance {
            x: (if dx < 0 {
                -dx
            } else {
                dx
            }) as i32,
            y: (if dy < 0 {
                -dy
            } else {
                dy
            }) as i32,
            z: (if dz < 0 {
                -dz
            } else {
                dz
            }) as i32,
        }
    }

    /// Whether this distance fits within the given bound on every axis.
    pub fn is_within(&self, bound: &Distance) -> (r: bool)
        ensures
            r == self.spec_is_within(*bound),
    {
        self.x <= bound.x && self.y <= bound.y && self.z <= bound.z
    }
}

/// `m / n` rounded to the nearest integer, halves rounded up, for
/// `m >= 0` and `n >= 1`.
pub open spec fn round_ratio(m: int, n: int) -> int {
    (2 * m + n) / (2 * n)
}

/// The rounded offset along one axis after `k` of `n` uniform steps that
/// together cover the signed delta `d`: `k * d / n` rounded to the nearest
/// integer, halves rounded away from zero.
pub open spec fn step_offset(d: int, n: int, k: int) -> int {
    if d >= 0 {
        round_ratio(k * d, n)
    } else {
        -round_ratio(k * (-d), n)
    }
}

/// The number of uniform steps the line between two locations takes: the
/// largest coordinate separation between them, its dominant axis.
pub open spec fn line_steps(start: Location, end: Location) -> int {
    let dx = magnitude(end.x - start.x);
    let dy = magnitude(end.y - start.y);
    let dz = magnitude(end.z - start.z);
    if dx >= dy && dx >= dz {
        dx
    } else if dy >= dz {
        dy
    } else {
        dz
    }
}

/// The integer coordinates of the `k`-th point of the line from `start` to
/// `end`: each axis advances by its share of the delta, rounded.
pub open spec fn line_point(start: Location, end: Location, k: int) -> (int, int, int) {
    let n = line_steps(start, end);
    if n == 0 {
        (start.x as int, start.y as int, start.z as int)
    } else {
        (
            start.x + step_offset(end.x - start.x, n, k),
            start.y + step_offset(end.y - start.y, n, k),
            start.z + step_offset(end.z - start.z, n, k),
        )
    }
}

/// Whether `p` is one of the rasterized points of the line from `start`
/// to `end`.
pub open spec fn on_line(start: Location, end: Location, p: Location) -> bool {
    exists|k: int|
        0 <= k <= line_steps(start, end) && line_point(start, end, k) == (
            p.x as int,
            p.y as int,
            p.z as int,
        )
}

/// Strict lexicographic order on locations: x first, then y, then z.
pub open spec fn lex_lt(a: Location, b: Location) -> bool {
    ||| a.x < b.x
    ||| (a.x == b.x && a.y < b.y)
    ||| (a.x == b.x && a.y == b.y && a.z < b.z)
}

/// The sequence ascends strictly in lexicographic order, so it is free of
/// duplicates.
pub open spec fn sorted_distinct(s: Seq<Location>) -> bool {
    forall|i: int, j: int| 0 <= i < j < s.len() ==> #[trigger] lex_lt(s[i], s[j])
}

/// The rounded share of a delta is pinned between 0 and the full delta.
proof fn lemma_round_ratio_bounds(m: int, n: int, a: int)
    requires
        1 <= n,
        0 <= m,
        m <= n * a,
    ensures
        0 <= round_ratio(m, n) <= a,
{
    lemma_div_pos_is_pos(2 * m + n, 2 * n);
    lemma_div_is_ordered(2 * m + n, 2 * (n * a) + n, 2 * n);
    assert(2 * (n * a) + n == a * (2 * n) + n) by (nonlinear_arith);
    lemma_fundamental_div_mod_converse(a * (2 * n) + n, 2 * n, a, n);
}

/// Rounding an exact multiple of the step count recovers the multiplier.
proof fn lemma_round_ratio_exact(a: int, n: int)
    requires
        1 <= n,
        0 <= a,
    ensures
        round_ratio(n * a, n) == a,
{
    assert(2 * (n * a) + n == a * (2 * n) + n) by (nonlinear_arith);
    lemma_fundamental_div_mod_converse(a * (2 * n) + n, 2 * n, a, n);
}

/// The k-th of n uniform steps across a delta, rounded to the nearest
/// integer with halves rounded up.
fn rounded_step(m: u64, n: u64) -> (r: u64)
    requires
        1 <= n <= 0x7fff_ffff,
        m <= 0x4000_0000_0000_0000,
    ensures
        r as int == round_ratio(m as int, n as int),
{
    (2 * m + n) / (2 * n)
}

/// The coordinate on one axis of the `k`-th point of a line: the start
/// coordinate `s` plus the rounded share of the signed axis delta `d`.
fn axis_coord(s: i32, d: i64, n: u64, k: u64) -> (c: i32)
    requires
        1 <= n <= 0x7fff_ffff,
        k <= n,
        magnitude(d as int) <= 0x7fff_ffff,
        i32::MIN <= s + d <= i32::MAX,
    ensures
        c as int == s + step_offset(d as int, n as int, k as int),
{
    let a: u64 = if d < 0 {
        (-d) as u64
    } else {
        d as u64
    };
    proof {
        assert((k as int) * (a as int) <= (n as int) * (a as int)) by (nonlinear_arith)
            requires
                0 <= k as int <= n as int,
                0 <= a as int,
        ;
        assert((n as int) * (a as int) <= 0x3fff_ffff_0000_0001) by (nonlinear_arith)
            requires
                0 <= n as int <= 0x7fff_ffff,
                0 <= a as int <= 0x7fff_ffff,
        ;
    }
    let m: u64 = k * a;
    let off: u64 = rounded_step(m, n);
    proof {
        lemma_round_ratio_bounds(m as int, n as int, a as int);
    }
    let c64: i64 = if d >= 0 {
        s as i64 + off as i64
    } else {
        s as i64 - off as i64
    };
    c64 as i32
}

/// Whether `a` precedes `b` in the lexicographic order on locations.
fn loc_less(a: &Location, b: &Location) -> (r: bool)
    ensures
        r == lex_lt(*a, *b),
{
    if a.x != b.x {
        a.x < b.x
    } else if a.y != b.y {
        a.y < b.y
    } else {
        a.z < b.z
    }
}

/// Insert a location into a strictly sorted vector, keeping it sorted and
/// free of duplicates.
fn insert_sorted(locations: &mut Vec<Location>, location: Location)
    requires
        sorted_distinct(old(locations)@),
    ensures
        sorted_distinct(final (locations)@),
        forall|p: Location| #[trigger]
            final (locations)@.contains(p) <==> (old(locations)@.contains(p) || p == location),
        final (locations)@.len() >= old(locations)@.len(),
{
    let ghost orig = locations@;
    let n = locations.len();
    let mut i: usize = 0;
    while i < n
        invariant
            locations@ == orig,
            n == orig.len(),
            0 <= i <= n,
            forall|j: int| 0 <= j < i ==> lex_lt(#[trigger] orig[j], location),
        ensures
            locations@ == orig,
            0 <= i <= n,
            forall|j: int| 0 <= j < i ==> lex_lt(#[trigger] orig[j], location),
            i < n ==> !lex_lt(orig[i as int], location),
        decreases n - i,
    {
        if loc_less(&locations[i], &location) {
            i += 1;
        } else {
            break ;
        }
    }
    if i < n && locations[i] == location {
        proof {
            assert(orig[i as int] == location);
            assert(orig.contains(location));
        }
        return ;
    }
    proof {
        if i < n {
            assert(!lex_lt(orig[i as int], location) && orig[i as int] != location);
            assert(lex_lt(location, orig[i as int]));
        }
    }
    locations.insert(i, location);
    proof {
        let updated = locations@;
        assert forall|u: int, v: int| 0 <= u < v < updated.len() implies #[trigger] lex_lt(
            updated[u],
            updated[v],
        ) by {
            let iv = i as int;
            if v < iv {
                assert(updated[u] == orig[u] && updated[v] == orig[v]);
            } else if u < iv && v == iv {
                assert(updated[u] == orig[u] && updated[v] == location);
            } else if u < iv && v > iv {
                assert(updated[u] == orig[u] && updated[v] == orig[v - 1]);
                if iv < v - 1 {
                    assert(lex_lt(orig[iv], orig[v - 1]));
                }
            } else if u == iv {
                assert(updated[u] == location && updated[v] == orig[v - 1]);
                if iv < v - 1 {
                    assert(lex_lt(orig[iv], orig[v - 1]));
                }
            } else {
                assert(updated[u] == orig[u - 1] && updated[v] == orig[v - 1]);
            }
        }
        assert forall|p: Location| #[trigger]
            updated.contains(p) <==> (orig.contains(p) || p == location) by {
            let iv = i as int;
            if updated.contains(p) {
                let idx = choose|idx: int| 0 <= idx < updated.len() && updated[idx] == p;
                if idx < iv {
                    assert(orig[idx] == p);
                } else if idx == iv {
                    assert(p == location);
                } else {
                    assert(orig[idx - 1] == p);
                }
            }
            if orig.contains(p) {
                let idx = choose|idx: int| 0 <= idx < orig.len() && orig[idx] == p;
                if idx < iv {
                    assert(updated[idx] == p);
                } else {
                    assert(updated[idx + 1] == p);
                }
            }
            if p == location {
                assert(updated[i as int] == p);
            }
        }
    }
}

/// The discrete set of locations connecting a start and an end location,
/// generated by uniform stepping along the dominant axis with the other
/// axes rounded proportionally, and held in ascending lexicographic order.
///
/// Invariant (`wf`): at least one member, in strictly ascending order.
#[derive(Clone, Debug)]
pub struct Line {
    pub locations: Vec<Location>,
}

impl Line {
    /// The member list is never empty and ascends strictly in
    /// lexicographic order.
    pub open spec fn wf(self) -> bool {
        self.locations@.len() >= 1 && sorted_distinct(self.locations@)
    }

    /// Rasterize the line between two locations: its members are exactly
    /// the rounded points `line_point(start, end, k)` for each of the
    /// steps `0 ..= line_steps(start, end)`.
    pub fn between(start: &Location, end: &Location) -> (line: Line)
        requires
            magnitude(end.x - start.x) <= i32::MAX,
            magnitude(end.y - start.y) <= i32::MAX,
            magnitude(end.z - start.z) <= i32::MAX,
        ensures
            line.wf(),
            forall|p: Location| #[trigger]
                line.locations@.contains(p) <==> on_line(*start, *end, p),
            *start == *end ==> line.locations@ == seq![*start],
    {
        let s = *start;
        let e = *end;
        let dx: i64 = e.x as i64 - s.x as i64;
        let dy: i64 = e.y as i64 - s.y as i64;
        let dz: i64 = e.z as i64 - s.z as i64;
        let ax: u64 = if dx < 0 {
            (-dx) as u64
        } else {
            dx as u64
        };
        let ay: u64 = if dy < 0 {
            (-dy) as u64
        } else {
            dy as u64
        };
        let az: u64 = if dz < 0 {
            (-dz) as u64
        } else {
            dz as u64
        };
        let n: u64 = if ax >= ay && ax >= az {
            ax
        } else if ay >= az {
            ay
        } else {
            az
        };
        proof {
            assert(n as int == line_steps(s, e));
        }
        let mut locations: Vec<Location> = Vec::new();
        if n == 0 {
            locations.push(s);
            proof {
                assert(e == s);
                assert(locations@ =~= seq![s]);
                assert forall|p: Location| #[trigger]
                    locations@.contains(p) <==> on_line(s, e, p) by {
                    if p == s {
                        assert(line_point(s, e, 0) == (p.x as int, p.y as int, p.z as int));
                        assert(on_line(s, e, p));
                        assert(locations@[0] == p);
                    }
                    if locations@.contains(p) {
                        assert(p == s);
                    }
                    if on_line(s, e, p) {
                        let k = choose|k: int|
                            0 <= k <= line_steps(s, e) && line_point(s, e, k) == (
                                p.x as int,
                                p.y as int,
                                p.z as int,
                            );
                        assert(k == 0);
                        assert(p == s);
                    }
                }
            }
            return Line { locations };
        }
        let mut k: u64 = 0;
        while k <= n
            invariant
                1 <= n <= 0x7fff_ffff,
                n as int == line_steps(s, e),
                dx as int == e.x - s.x,
                dy as int == e.y - s.y,
                dz as int == e.z - s.z,
                magnitude(dx as int) <= 0x7fff_ffff,
                magnitude(dy as int) <= 0x7fff_ffff,
                magnitude(dz as int) <= 0x7fff_ffff,
                0 <= k <= n + 1,
                sorted_distinct(locations@),
                forall|p: Location| #[trigger]
                    locations@.contains(p) <==> exists|j: int|
                        0 <= j < k && line_point(s, e, j) == (p.x as int, p.y as int, p.z as int),
            decreases n + 1 - k,
        {
            let cx: i32 = axis_coord(s.x, dx, n, k);
            let cy: i32 = axis_coord(s.y, dy, n, k);
            let cz: i32 = axis_coord(s.z, dz, n, k);
            let next = Location { x: cx, y: cy, z: cz };
            proof {
                assert(line_point(s, e, k as int) == (next.x as int, next.y as int, next.z as int));
            }
            insert_sorted(&mut locations, next);
            proof {
                assert forall|p: Location| #[trigger]
                    locations@.contains(p) <==> exists|j: int|
                        0 <= j < k + 1 && line_point(s, e, j) == (
                            p.x as int,
                            p.y as int,
                            p.z as int,
                        ) by {
                    if locations@.contains(p) {
                        if p == next {
                            assert(line_point(s, e, k as int) == (
                                p.x as int,
                                p.y as int,
                                p.z as int,
                            ));
                        }
                    }
                    if exists|j: int|
                        0 <= j < k + 1 && line_point(s, e, j) == (
                            p.x as int,
                            p.y as int,
                            p.z as int,
                        ) {
                        let j = choose|j: int|
                            0 <= j < k + 1 && line_point(s, e, j) == (
                                p.x as int,
                                p.y as int,
                                p.z as int,
                            );
                        if j == k as int {
                            assert(p.x == next.x && p.y == next.y && p.z == next.z);
                            assert(p == next);
                        }
                    }
                }
            }
            k += 1;
        }
        proof {
            lemma_round_ratio_bounds(0, n as int, 0);
            assert(0 * (dx as int) == 0 && 0 * (-(dx as int)) == 0);
            assert(0 * (dy as int) == 0 && 0 * (-(dy as int)) == 0);
            assert(0 * (dz as int) == 0 && 0 * (-(dz as int)) == 0);
            assert(step_offset(dx as int, n as int, 0) == 0);
            assert(step_offset(dy as int, n as int, 0) == 0);
            assert(step_offset(dz as int, n as int, 0) == 0);
            assert(line_point(s, e, 0) == (s.x as int, s.y as int, s.z as int));
            assert(locations@.contains(s));
        }
        Line { locations }
    }

    /// The first member of this line in lexicographic order.
    pub fn start(&self) -> (l: Location)
        requires
            self.wf(),
        ensures
            l == self.locations@[0],
            self.locations@.contains(l),
    {
        self.locations[0]
    }

    /// The last member of this line in lexicographic order.
    pub fn end(&self) -> (l: Location)
        requires
            self.wf(),
        ensures
            l == self.locations@[self.locations@.len() - 1],
            self.locations@.contains(l),
    {
        self.locations[self.locations.len() - 1]
    }

    /// Whether the given location is a member of this line.
    pub fn contains(&self, location: &Location) -> (r: bool)
        ensures
            r == self.locations@.contains(*location),
    {
        let n = self.locations.len();
        let mut i: usize = 0;
        while i < n
            invariant
                n == self.locations@.len(),
                0 <= i <= n,
                forall|j: int| 0 <= j < i ==> #[trigger] self.locations@[j] != *location,
            decreases n - i,
        {
            if self.locations[i] == *location {
                return true;
            }
            i += 1;
        }
        false
    }
}

/// A degenerate line, between a location and itself, has exactly one
/// member: that location.
pub proof fn lemma_line_degenerate(a: Location)
    ensures
        forall|p: Location| #[trigger] on_line(a, a, p) <==> p == a,
{
    assert(line_steps(a, a) == 0);
    assert forall|p: Location| #[trigger] on_line(a, a, p) <==> p == a by {
        if p == a {
            assert(line_point(a, a, 0) == (p.x as int, p.y as int, p.z as int));
            assert(on_line(a, a, p));
        }
        if on_line(a, a, p) {
            let k = choose|k: int|
                0 <= k <= line_steps(a, a) && line_point(a, a, k) == (
                    p.x as int,
                    p.y as int,
                    p.z as int,
                );
            assert(k == 0);
            assert(p == a);
        }
    }
}

/// Both endpoints of a line are always among its members.
pub proof fn lemma_line_endpoints(start: Location, end: Location)
    requires
        magnitude(end.x - start.x) <= i32::MAX,
        magnitude(end.y - start.y) <= i32::MAX,
        magnitude(end.z - start.z) <= i32::MAX,
    ensures
        on_line(start, end, start),
        on_line(start, end, end),
{
    let n = line_steps(start, end);
    let dx = end.x - start.x;
    let dy = end.y - start.y;
    let dz = end.z - start.z;
    if n == 0 {
        assert(end == start);
        assert(line_point(start, end, 0) == (start.x as int, start.y as int, start.z as int));
        assert(on_line(start, end, start));
    } else {
        lemma_round_ratio_bounds(0, n, 0);
        assert(0 * dx == 0 && 0 * (-dx) == 0);
        assert(0 * dy == 0 && 0 * (-dy) == 0);
        assert(0 * dz == 0 && 0 * (-dz) == 0);
        assert(step_offset(dx, n, 0) == 0);
        assert(step_offset(dy, n, 0) == 0);
        assert(step_offset(dz, n, 0) == 0);
        assert(line_point(start, end, 0) == (start.x as int, start.y as int, start.z as int));
        assert(on_line(start, end, start));
        if dx >= 0 {
            lemma_round_ratio_exact(dx, n);
        } else {
            lemma_round_ratio_exact(-dx, n);
        }
        if dy >= 0 {
            lemma_round_ratio_exact(dy, n);
        } else {
            lemma_round_ratio_exact(-dy, n);
        }
        if dz >= 0 {
            lemma_round_ratio_exact(dz, n);
        } else {
            lemma_round_ratio_exact(-dz, n);
        }
        assert(step_offset(dx, n, n) == dx);
        assert(step_offset(dy, n, n) == dy);
        assert(step_offset(dz, n, n) == dz);
        assert(line_point(start, end, n) == (end.x as int, end.y as int, end.z as int));
        assert(on_line(start, end, end));
    }
}

/// A location in space, without concern for what may or may not be there.
#[derive(Clone, Copy, Debug, Hash, PartialEq, Eq, Structural)]
pub struct Location {
    pub x: i32,
    pub y: i32,
    pub z: i32,
}

/// Argument forms accepted by [`Location::at`]: an (x, y) pair, where z
/// defaults to 0, or an (x, y, z) triple.
pub trait LocationAt {
    /// The location that this argument form denotes.
    spec fn spec_at(self) -> Location;

    /// Build the location that this argument form denotes.
    fn at(self) -> (l: Location)
        ensures
            l == self.spec_at(),
    ;
}

impl LocationAt for (i32, i32) {
    open spec fn spec_at(self) -> Location {
        Location { x: self.0, y: self.1, z: 0 }
    }

    fn at(self) -> (l: Location) {
        Location { x: self.0, y: self.1, z: 0 }
    }
}

impl LocationAt for (i32, i32, i32) {
    open spec fn spec_at(self) -> Location {
        Location { x: self.0, y: self.1, z: self.2 }
    }

    fn at(self) -> (l: Location) {
        Location { x: self.0, y: self.1, z: self.2 }
    }
}

impl Location {
    /// Whether this location is separated from `other` by at most
    /// `distance` on every axis.
    pub open spec fn spec_is_within(self, distance: Distance, other: Location) -> bool {
        &&& magnitude(self.x - other.x) <= distance.x
        &&& magnitude(self.y - other.y) <= distance.y
        &&& magnitude(self.z - other.z) <= distance.z
    }

    /// Build a location from an (x, y) pair or an (x, y, z) triple.
    pub fn at<A: LocationAt>(args: A) -> (l: Location)
        ensures
            l == args.spec_at(),
    {
        args.at()
    }

    /// The coordinate along the x axis.
    pub fn x(&self) -> (x: i32)
        ensures
            x == self.x,
    {
        self.x
    }

    /// The coordinate along the y axis.
    pub fn y(&self) -> (y: i32)
        ensures
            y == self.y,
    {
        self.y
    }

    /// The coordinate along the z axis.
    pub fn z(&self) -> (z: i32)
        ensures
            z == self.z,
    {
        self.z
    }

    /// The location displaced from this one by the given vector. Bounds are
    /// not checked here; they are the board's concern.
    pub fn go(&self, vector: &Vector) -> (l: Location)
        requires
            i32::MIN <= self.x + vector.x <= i32::MAX,
            i32::MIN <= self.y + vector.y <= i32::MAX,
            i32::MIN <= self.z + vector.z <= i32::MAX,
        ensures
            l.x == self.x + vector.x,
            l.y == self.y + vector.y,
            l.z == self.z + vector.z,
    {
        Location { x: self.x + vector.x, y: self.y + vector.y, z: self.z + vector.z }
    }

    /// Whether this location is separated from `location` by at most
    /// `distance` on every axis.
    pub fn is_within(&self, distance: &Distance, location: &Location) -> (r: bool)
        ensures
            r == self.spec_is_within(*distance, *location),
    {
        let dx: i64 = self.x as i64 - location.x as i64;
        let dy: i64 = self.y as i64 - location.y as i64;
        let dz: i64 = self.z as i64 - location.z as i64;

        let ax: i64 = if dx < 0 {
            -dx
        } else {
            dx
        };
        let ay: i64 = if dy < 0 {
            -dy
        } else {
            dy
        };
        let az: i64 = if dz < 0 {
            -dz
        } else {
            dz
        };

        ax <= distance.x as i64 && ay <= distance.y as i64 && az <= distance.z as i64
    }
}

/// The distance and direction to go from one [`Location`] to another.
#[derive(Clone, Copy, Debug, Hash, PartialEq, Eq, Structural)]
pub struct Vector {
    pub x: i32,
    pub y: i32,
    pub z: i32,
}

/// Argument forms accepted by [`Vector::of`]: an (x, y) pair, where z
/// defaults to 0, or an (x, y, z) triple.
pub trait VectorOf {
    /// The vector that this argument form denotes.
    spec fn spec_of(self) -> Vector;

    /// Build the vector that this argument form denotes.
    fn of(self) -> (v: Vector)
        ensures
            v == self.spec_of(),
    ;
}

impl VectorOf for (i32, i32) {
    open spec fn spec_of(self) -> Vector {
        Vector { x: self.0, y: self.1, z: 0 }
    }

    fn of(self) -> (v: Vector) {
        Vector { x: self.0, y: self.1, z: 0 }
    }
}

impl VectorOf for (i32, i32, i32) {
    open spec fn spec_of(self) -> Vector {
        Vector { x: self.0, y: self.1, z: self.2 }
    }

    fn of(self) -> (v: Vector) {
        Vector { x: self.0, y: self.1, z: self.2 }
    }
}

impl Vector {
    /// Build a vector from an (x, y) pair or an (x, y, z) triple.
    pub fn of<A: VectorOf>(args: A) -> (v: Vector)
        ensures
            v == args.spec_of(),
    {
        args.of()
    }

    /// The displacement along the x axis.
    pub fn x(&self) -> (x: i32)
        ensures
            x == self.x,
    {
        self.x
    }

    /// The displacement along the y axis.
    pub fn y(&self) -> (y: i32)
        ensures
            y == self.y,
    {
        self.y
    }

    /// The displacement along the z axis.
    pub fn z(&self) -> (z: i32)
        ensures
            z == self.z,
    {
        self.z
    }

    /// The vector that displaces `start` to `end`.
    pub fn from(start: &Location, end: &Location) -> (v: Vector)
        requires
            i32::MIN <= end.x - start.x <= i32::MAX,
            i32::MIN <= end.y - start.y <= i32::MAX,
            i32::MIN <= end.z - start.z <= i32::MAX,
        ensures
            v.x == end.x - start.x,
            v.y == end.y - start.y,
            v.z == end.z - start.z,
    {
        let dx: i64 = end.x as i64 - start.x as i64;
        let dy: i64 = end.y as i64 - start.y as i64;
        let dz: i64 = end.z as i64 - start.z as i64;

        Vector { x: dx as i32, y: dy as i32, z: dz as i32 }
    }
}

/// One of the closed set of axis directions along which a placement can
/// run: the x, y, or z axis.
#[derive(Clone, Copy, Debug, Hash, PartialEq, Eq, Structural)]
pub enum Orientation {
    X,
    Y,
    Z,
}

impl Orientation {
    /// The location reached from `location` after moving `amount` steps
    /// along this orientation's axis.
    pub open spec fn spec_go(self, location: Location, amount: int) -> (int, int, int) {
        match self {
            Orientation::X => (location.x + amount, location.y as int, location.z as int),
            Orientation::Y => (location.x as int, location.y + amount, location.z as int),
            Orientation::Z => (location.x as int, location.y as int, location.z + amount),
        }
    }

    /// Whether the given distance lies entirely along this orientation's
    /// axis: zero on both other axes, any magnitude on this one.
    pub open spec fn spec_contains(self, distance: Distance) -> bool {
        match self {
            Orientation::X => distance.y == 0 && distance.z == 0,
            Orientation::Y => distance.x == 0 && distance.z == 0,
            Orientation::Z => distance.x == 0 && distance.y == 0,
        }
    }

    /// Move the given location by a signed amount along this orientation's
    /// axis.
    pub fn go(&self, location: &Location, amount: i32) -> (l: Location)
        requires
            (match *self {
                Orientation::X => i32::MIN <= location.x + amount <= i32::MAX,
                Orientation::Y => i32::MIN <= location.y + amount <= i32::MAX,
                Orientation::Z => i32::MIN <= location.z + amount <= i32::MAX,
            }),
        ensures
            (l.x as int, l.y as int, l.z as int) == self.spec_go(*location, amount as int),
    {
        match self {
            Orientation::X => Location { x: location.x + amount, y: location.y, z: location.z },
            Orientation::Y => Location { x: location.x, y: location.y + amount, z: location.z },
            Orientation::Z => Location { x: location.x, y: location.y, z: location.z + amount },
        }
    }

    /// Whether the given distance has all of its magnitude confined to this
    /// orientation's axis.
    pub fn contains(&self, distance: &Distance) -> (r: bool)
        ensures
            r == self.spec_contains(*distance),
    {
        match self {
            Orientation::X => distance.y == 0 && distance.z == 0,
            Orientation::Y => distance.x == 0 && distance.z == 0,
            Orientation::Z => distance.x == 0 && distance.y == 0,
        }
    }
}

/// The named members of the closed [`Orientation`] set, and the usual
/// groupings a board allows.
pub struct Orientations {}

impl Orientations {
    /// The orientation along the x axis.
    pub fn x() -> (o: Orientation)
        ensures
            o == Orientation::X,
    {
        Orientation::X
    }

    /// The orientation along the y axis.
    pub fn y() -> (o: Orientation)
        ensures
            o == Orientation::Y,
    {
        Orientation::Y
    }

    /// The orientation along the z axis.
    pub fn z() -> (o: Orientation)
        ensures
            o == Orientation::Z,
    {
        Orientation::Z
    }

    /// The two planar orientations, x then y.
    pub fn xy() -> (os: Vec<Orientation>)
        ensures
            os@ == seq![Orientation::X, Orientation::Y],
    {
        let mut os: Vec<Orientation> = Vec::new();
        os.push(Orientation::X);
        os.push(Orientation::Y);
        proof {
            assert(os@ =~= seq![Orientation::X, Orientation::Y]);
        }
        os
    }

    /// All three spatial orientations, x then y then z.
    pub fn xyz() -> (os: Vec<Orientation>)
        ensures
            os@ == seq![Orientation::X, Orientation::Y, Orientation::Z],
    {
        let mut os: Vec<Orientation> = Vec::new();
        os.push(Orientation::X);
        os.push(Orientation::Y);
        os.push(Orientation::Z);
        proof {
            assert(os@ =~= seq![Orientation::X, Orientation::Y, Orientation::Z]);
        }
        os
    }
}

/// For all locations, the separation between a location and itself is the
/// zero distance.
pub proof fn lemma_distance_between_self(location: Location)
    ensures
        Distance::spec_between(location, location) == Distance::spec_zero(),
{
}

/// Every distance fits within the maximal distance on every axis.
pub proof fn lemma_distance_within_max(distance: Distance)
    ensures
        distance.spec_is_within(Distance::spec_max()),
{
}

} // verus!
