//! Points and triangles on fixed-point coordinates: area, canonical hash,
//! midpoint subdivision and the validity rule.

use crate::bytes::append_bytes;
use crate::bytes::append_u64_le;
use crate::bytes::hash_le;
use crate::bytes::lemma_lex_le_antisym;
use crate::bytes::lemma_lex_le_total;
use crate::bytes::lemma_lex_le_trans;
use crate::bytes::lex_le;
use crate::coord::abs_int;
use crate::coord::coord_of;
use crate::coord::fits_coord;
use crate::coord::fixed_product;
use crate::coord::lemma_trunc_div_bounds;
use crate::coord::trunc_div;
use crate::coord::Coord;
use crate::digest::hex_encode;
use crate::digest::hex_string;
use crate::digest::sha256;
use crate::digest::sha256_digest;
use crate::digest::Sha256Hash;
use vstd::bytes::spec_u64_to_le_bytes;
use vstd::prelude::*;
use vstd::utf8::encode_utf8;

verus! {

/// Stored integer of the tolerance for fixed-point comparisons: the
/// smallest positive `Coord`.
pub const GEOMETRIC_TOLERANCE_BITS: i64 = 1;

/// The tolerance for fixed-point comparisons.
pub fn geometric_tolerance() -> (c: Coord)
    ensures
        c.bits == GEOMETRIC_TOLERANCE_BITS,
{
    Coord { bits: GEOMETRIC_TOLERANCE_BITS }
}

/// Stored integer of the largest coordinate; a valid point stays below it.
pub const MAX_COORDINATE_BITS: i64 = 0x7fff_ffff_ffff_ffff;

/// The eight little-endian bytes of a coordinate's stored integer.
pub open spec fn coord_le_bytes(c: Coord) -> Seq<u8> {
    spec_u64_to_le_bytes(c.bits as u64)
}

/// A 2D point with fixed-point coordinates.
#[derive(Debug, Clone, Copy, PartialEq, Eq, Hash, Structural)]
pub struct Point {
    pub x: Coord,
    pub y: Coord,
}

/// The coordinate halfway between two others, rounded towards zero.
pub open spec fn spec_mid_coord(p: Coord, q: Coord) -> Coord {
    Coord { bits: trunc_div(p@ + q@, 2) as i64 }
}

/// The point halfway between two others.
pub open spec fn spec_midpoint(p: Point, q: Point) -> Point {
    Point { x: spec_mid_coord(p.x, q.x), y: spec_mid_coord(p.y, q.y) }
}

/// The bytes a point is hashed from: `x`, then `y`.
pub open spec fn point_preimage(p: Point) -> Seq<u8> {
    coord_le_bytes(p.x) + coord_le_bytes(p.y)
}

/// The hash of a point.
pub open spec fn spec_point_hash(p: Point) -> Seq<u8> {
    sha256(point_preimage(p))
}

fn mid_coord(p: Coord, q: Coord) -> (m: Coord)
    ensures
        m == spec_mid_coord(p, q),
{
    let sum: i128 = p.bits as i128 + q.bits as i128;
    proof {
        lemma_trunc_div_bounds(sum as int, 2);
    }
    let half: i128 = match sum.checked_div(2) {
        Some(h) => h,
        None => 0,
    };
    Coord { bits: half as i64 }
}

impl Point {
    /// Creates a new point.
    pub fn new(x: Coord, y: Coord) -> (p: Point)
        ensures
            p == (Point { x, y }),
    {
        Point { x, y }
    }

    /// Whether both coordinates are below the largest coordinate.
    pub open spec fn spec_is_valid(self) -> bool {
        self.x@ < MAX_COORDINATE_BITS && self.y@ < MAX_COORDINATE_BITS
    }

    /// Whether both coordinates are within the magnitude bound.
    pub fn is_valid(&self) -> (ok: bool)
        ensures
            ok == self.spec_is_valid(),
    {
        self.x.bits < MAX_COORDINATE_BITS && self.y.bits < MAX_COORDINATE_BITS
    }

    /// The exact midpoint between this point and another; the sum of two
    /// coordinates is formed without overflow before it is halved.
    pub fn midpoint(&self, other: &Point) -> (m: Point)
        ensures
            m == spec_midpoint(*self, *other),
    {
        Point { x: mid_coord(self.x, other.x), y: mid_coord(self.y, other.y) }
    }

    /// The SHA-256 hash of the two coordinates.
    pub fn hash(&self) -> (h: Sha256Hash)
        ensures
            h@ == spec_point_hash(*self),
    {
        let mut buf: Vec<u8> = Vec::new();
        append_u64_le(&mut buf, self.x.bits as u64);
        append_u64_le(&mut buf, self.y.bits as u64);
        sha256_digest(buf.as_slice())
    }

    /// The hash in hexadecimal.
    pub fn hash_str(&self) -> (s: String)
        ensures
            s@ == hex_string(spec_point_hash(*self)),
    {
        let h = self.hash();
        hex_encode(h.as_slice())
    }

    /// Exact equality with another point.
    pub fn equals(&self, other: &Point) -> (same: bool)
        ensures
            same == (*self == *other),
    {
        self.x.bits == other.x.bits && self.y.bits == other.y.bits
    }
}

/// One product of the shoelace formula, `x * (y1 - y2)`, where both the
/// difference and the product can be stored.
pub open spec fn shoelace_term(x: Coord, y1: Coord, y2: Coord) -> Option<Coord> {
    match coord_of(y1@ - y2@) {
        Some(d) => coord_of(fixed_product(x@, d@)),
        None => None,
    }
}

/// The shoelace area `|a.x (b.y - c.y) + b.x (c.y - a.y) + c.x (a.y - b.y)| / 2`
/// in fixed-point arithmetic; `None` where a step of it cannot be stored.
pub open spec fn spec_area(a: Point, b: Point, c: Point) -> Option<Coord> {
    match (shoelace_term(a.x, b.y, c.y), shoelace_term(b.x, c.y, a.y), shoelace_term(
        c.x,
        a.y,
        b.y,
    )) {
        (Some(t1), Some(t2), Some(t3)) => {
            if fits_coord(t1@ + t2@) && fits_coord(t1@ + t2@ + t3@) && fits_coord(
                abs_int(t1@ + t2@ + t3@),
            ) {
                Some(Coord { bits: (abs_int(t1@ + t2@ + t3@) / 2) as i64 })
            } else {
                None
            }
        },
        _ => None,
    }
}

/// The smaller of two byte strings in the lexicographic order.
pub open spec fn lex_min(a: Seq<u8>, b: Seq<u8>) -> Seq<u8> {
    if lex_le(a, b) {
        a
    } else {
        b
    }
}

/// The larger of two byte strings in the lexicographic order.
pub open spec fn lex_max(a: Seq<u8>, b: Seq<u8>) -> Seq<u8> {
    if lex_le(a, b) {
        b
    } else {
        a
    }
}

/// Three byte strings in ascending lexicographic order, joined.
pub open spec fn sorted_concat(h1: Seq<u8>, h2: Seq<u8>, h3: Seq<u8>) -> Seq<u8> {
    lex_min(lex_min(h1, h2), h3) + lex_max(lex_min(h1, h2), lex_min(lex_max(h1, h2), h3)) + lex_max(
        lex_max(h1, h2),
        h3,
    )
}

/// The bytes of an explicit value, or nothing.
pub open spec fn value_bytes(value: Option<Coord>) -> Seq<u8> {
    match value {
        Some(v) => coord_le_bytes(v),
        None => Seq::empty(),
    }
}

/// The bytes a triangle is hashed from: the three vertex hashes in
/// ascending order, the owner's bytes, and the explicit value if there is one.
pub open spec fn triangle_preimage(
    a: Point,
    b: Point,
    c: Point,
    owner: Seq<char>,
    value: Option<Coord>,
) -> Seq<u8> {
    sorted_concat(spec_point_hash(a), spec_point_hash(b), spec_point_hash(c)) + encode_utf8(owner)
        + value_bytes(value)
}

/// What a triangle is, as plain values.
pub struct TriangleView {
    pub a: Point,
    pub b: Point,
    pub c: Point,
    pub parent_hash: Option<Seq<u8>>,
    pub owner: Seq<char>,
    pub value: Option<Coord>,
}

impl TriangleView {
    /// The geometric area, where it can be computed.
    pub open spec fn area(self) -> Option<Coord> {
        spec_area(self.a, self.b, self.c)
    }

    /// The explicit value, or the area where there is none.
    pub open spec fn effective_value(self) -> Option<Coord> {
        match self.value {
            Some(v) => Some(v),
            None => self.area(),
        }
    }

    /// The canonical hash.
    pub open spec fn hash(self) -> Seq<u8> {
        sha256(triangle_preimage(self.a, self.b, self.c, self.owner, self.value))
    }

    /// All vertices within bounds and an area above the tolerance.
    pub open spec fn is_valid(self) -> bool {
        &&& self.a.spec_is_valid()
        &&& self.b.spec_is_valid()
        &&& self.c.spec_is_valid()
        &&& self.area() matches Some(area) && area@ > GEOMETRIC_TOLERANCE_BITS
    }

    /// The same triangle with another owner.
    pub open spec fn with_owner(self, owner: Seq<char>) -> TriangleView {
        TriangleView { owner, ..self }
    }

    /// The same triangle with an explicit value.
    pub open spec fn with_value(self, value: Coord) -> TriangleView {
        TriangleView { value: Some(value), ..self }
    }

    /// The value of the first and second child of a subdivision: a third of
    /// the parent's, rounded towards zero.
    pub open spec fn child_share(total: Coord) -> Coord {
        Coord { bits: trunc_div(total@, 3) as i64 }
    }

    /// The value of the third child, which takes what the other two leave.
    pub open spec fn child_rest(total: Coord) -> Coord {
        Coord { bits: (total@ - 2 * trunc_div(total@, 3)) as i64 }
    }

    /// The vertices of child `i` of the midpoint subdivision: `(A, M_AB,
    /// M_CA)`, `(M_AB, B, M_BC)` and `(M_CA, M_BC, C)`.
    pub open spec fn child_vertices(self, i: int) -> (Point, Point, Point) {
        let mid_ab = spec_midpoint(self.a, self.b);
        let mid_bc = spec_midpoint(self.b, self.c);
        let mid_ca = spec_midpoint(self.c, self.a);
        if i == 0 {
            (self.a, mid_ab, mid_ca)
        } else if i == 1 {
            (mid_ab, self.b, mid_bc)
        } else {
            (mid_ca, mid_bc, self.c)
        }
    }

    /// Child `i` of the midpoint subdivision of a triangle worth `total`.
    pub open spec fn child(self, i: int, total: Coord) -> TriangleView {
        let (a, b, c) = self.child_vertices(i);
        TriangleView {
            a,
            b,
            c,
            parent_hash: Some(self.hash()),
            owner: self.owner,
            value: Some(
                if i == 2 {
                    Self::child_rest(total)
                } else {
                    Self::child_share(total)
                },
            ),
        }
    }
}

/// The facts that make `lex_le` a total order on three byte strings.
proof fn lemma_lex_order_facts(a: Seq<u8>, b: Seq<u8>, c: Seq<u8>)
    ensures
        lex_le(a, b) || lex_le(b, a),
        lex_le(a, c) || lex_le(c, a),
        lex_le(b, c) || lex_le(c, b),
        lex_le(a, b) && lex_le(b, a) ==> a == b,
        lex_le(a, c) && lex_le(c, a) ==> a == c,
        lex_le(b, c) && lex_le(c, b) ==> b == c,
        lex_le(a, b) && lex_le(b, c) ==> lex_le(a, c),
        lex_le(a, c) && lex_le(c, b) ==> lex_le(a, b),
        lex_le(b, a) && lex_le(a, c) ==> lex_le(b, c),
        lex_le(b, c) && lex_le(c, a) ==> lex_le(b, a),
        lex_le(c, a) && lex_le(a, b) ==> lex_le(c, b),
        lex_le(c, b) && lex_le(b, a) ==> lex_le(c, a),
{
    lemma_lex_le_total(a, b);
    lemma_lex_le_total(a, c);
    lemma_lex_le_total(b, c);
    if lex_le(a, b) && lex_le(b, a) {
        lemma_lex_le_antisym(a, b);
    }
    if lex_le(a, c) && lex_le(c, a) {
        lemma_lex_le_antisym(a, c);
    }
    if lex_le(b, c) && lex_le(c, b) {
        lemma_lex_le_antisym(b, c);
    }
    if lex_le(a, b) && lex_le(b, c) {
        lemma_lex_le_trans(a, b, c);
    }
    if lex_le(a, c) && lex_le(c, b) {
        lemma_lex_le_trans(a, c, b);
    }
    if lex_le(b, a) && lex_le(a, c) {
        lemma_lex_le_trans(b, a, c);
    }
    if lex_le(b, c) && lex_le(c, a) {
        lemma_lex_le_trans(b, c, a);
    }
    if lex_le(c, a) && lex_le(a, b) {
        lemma_lex_le_trans(c, a, b);
    }
    if lex_le(c, b) && lex_le(b, a) {
        lemma_lex_le_trans(c, b, a);
    }
}

/// Sorting three byte strings gives the same result for every order in
/// which they are handed over.
pub proof fn lemma_sorted_concat_symmetric(a: Seq<u8>, b: Seq<u8>, c: Seq<u8>)
    ensures
        sorted_concat(a, c, b) == sorted_concat(a, b, c),
        sorted_concat(b, a, c) == sorted_concat(a, b, c),
        sorted_concat(b, c, a) == sorted_concat(a, b, c),
        sorted_concat(c, a, b) == sorted_concat(a, b, c),
        sorted_concat(c, b, a) == sorted_concat(a, b, c),
{
    lemma_lex_order_facts(a, b, c);
}

/// The canonical hash of a triangle is the same for every order of its
/// three vertices, the owner and the value being the same.
pub proof fn lemma_triangle_hash_canonical(t: TriangleView)
    ensures
        (TriangleView { a: t.a, b: t.c, c: t.b, ..t }).hash() == t.hash(),
        (TriangleView { a: t.b, b: t.a, c: t.c, ..t }).hash() == t.hash(),
        (TriangleView { a: t.b, b: t.c, c: t.a, ..t }).hash() == t.hash(),
        (TriangleView { a: t.c, b: t.a, c: t.b, ..t }).hash() == t.hash(),
        (TriangleView { a: t.c, b: t.b, c: t.a, ..t }).hash() == t.hash(),
{
    lemma_sorted_concat_symmetric(
        spec_point_hash(t.a),
        spec_point_hash(t.b),
        spec_point_hash(t.c),
    );
}

/// A triangle defined by three vertices, with its owner and value.
#[derive(Debug, PartialEq, Eq, Hash)]
pub struct Triangle {
    pub a: Point,
    pub b: Point,
    pub c: Point,
    pub parent_hash: Option<Sha256Hash>,
    pub owner: String,
    /// Explicit value of this triangle; its area counts where there is none.
    pub value: Option<Coord>,
}

/// The bytes of an optional hash.
pub open spec fn hash_option_view(h: Option<Sha256Hash>) -> Option<Seq<u8>> {
    match h {
        Some(bytes) => Some(bytes@),
        None => None,
    }
}

impl View for Triangle {
    type V = TriangleView;

    open spec fn view(&self) -> TriangleView {
        TriangleView {
            a: self.a,
            b: self.b,
            c: self.c,
            parent_hash: hash_option_view(self.parent_hash),
            owner: self.owner@,
            value: self.value,
        }
    }
}

impl Clone for Triangle {
    fn clone(&self) -> (t: Triangle)
        ensures
            t == *self,
    {
        Triangle {
            a: self.a,
            b: self.b,
            c: self.c,
            parent_hash: self.parent_hash,
            owner: self.owner.clone(),
            value: self.value,
        }
    }
}

fn checked_shoelace_term(x: Coord, y1: Coord, y2: Coord) -> (r: Option<Coord>)
    ensures
        r == shoelace_term(x, y1, y2),
{
    match y1.checked_sub(y2) {
        Some(d) => x.checked_mul(d),
        None => None,
    }
}

/// The three vertex hashes in ascending order.
fn sort_hashes(h1: Sha256Hash, h2: Sha256Hash, h3: Sha256Hash) -> (r: (
    Sha256Hash,
    Sha256Hash,
    Sha256Hash,
))
    ensures
        r.0@ + r.1@ + r.2@ == sorted_concat(h1@, h2@, h3@),
{
    proof {
        lemma_lex_le_total(h1@, h2@);
        lemma_lex_le_total(h1@, h3@);
        lemma_lex_le_total(h2@, h3@);
    }
    let (lo, hi) = if hash_le(&h1, &h2) {
        (h1, h2)
    } else {
        (h2, h1)
    };
    assert(lo@ == lex_min(h1@, h2@) && hi@ == lex_max(h1@, h2@));
    let (mid, top) = if hash_le(&hi, &h3) {
        (hi, h3)
    } else {
        (h3, hi)
    };
    assert(mid@ == lex_min(hi@, h3@) && top@ == lex_max(hi@, h3@));
    let (first, second) = if hash_le(&lo, &mid) {
        (lo, mid)
    } else {
        (mid, lo)
    };
    proof {
        lemma_lex_le_total(lo@, mid@);
        lemma_lex_le_total(lo@, h3@);
        if lex_le(lo@, hi@) && lex_le(hi@, h3@) {
            lemma_lex_le_trans(lo@, hi@, h3@);
        }
        if lex_le(h3@, lo@) && lex_le(lo@, hi@) {
            lemma_lex_le_trans(h3@, lo@, hi@);
        }
        if lex_le(lo@, h3@) && lex_le(h3@, lo@) {
            lemma_lex_le_antisym(lo@, h3@);
        }
        if lex_le(lo@, mid@) && lex_le(mid@, lo@) {
            lemma_lex_le_antisym(lo@, mid@);
        }
        if lex_le(lo@, hi@) && lex_le(hi@, lo@) {
            lemma_lex_le_antisym(lo@, hi@);
        }
        if lex_le(hi@, h3@) && lex_le(h3@, hi@) {
            lemma_lex_le_antisym(hi@, h3@);
        }
    }
    (first, second, top)
}

impl Triangle {
    /// Creates a triangle without an explicit value.
    pub fn new(a: Point, b: Point, c: Point, parent_hash: Option<Sha256Hash>, owner: String) -> (t:
        Triangle)
        ensures
            t == (Triangle { a, b, c, parent_hash, owner, value: None }),
    {
        Triangle { a, b, c, parent_hash, owner, value: None }
    }

    /// Creates a triangle with an explicit value.
    pub fn new_with_value(
        a: Point,
        b: Point,
        c: Point,
        parent_hash: Option<Sha256Hash>,
        owner: String,
        value: Coord,
    ) -> (t: Triangle)
        ensures
            t == (Triangle { a, b, c, parent_hash, owner, value: Some(value) }),
    {
        Triangle { a, b, c, parent_hash, owner, value: Some(value) }
    }

    /// This triangle with the explicit value `value`.
    pub fn with_effective_value(self, value: Coord) -> (t: Triangle)
        ensures
            t == (Triangle { value: Some(value), ..self }),
            t@ == self@.with_value(value),
    {
        Triangle { value: Some(value), ..self }
    }

    /// This triangle in the hands of `owner`.
    pub fn change_owner(self, owner: String) -> (t: Triangle)
        ensures
            t == (Triangle { owner, ..self }),
            t@ == self@.with_owner(owner@),
    {
        Triangle { owner, ..self }
    }

    /// The shoelace area, or `None` where a step of the formula overflows.
    pub fn checked_area(&self) -> (r: Option<Coord>)
        ensures
            r == self@.area(),
    {
        let t1 = match checked_shoelace_term(self.a.x, self.b.y, self.c.y) {
            Some(t) => t,
            None => { return None; },
        };
        let t2 = match checked_shoelace_term(self.b.x, self.c.y, self.a.y) {
            Some(t) => t,
            None => { return None; },
        };
        let t3 = match checked_shoelace_term(self.c.x, self.a.y, self.b.y) {
            Some(t) => t,
            None => { return None; },
        };
        let s12 = match t1.checked_add(t2) {
            Some(s) => s,
            None => { return None; },
        };
        let s = match s12.checked_add(t3) {
            Some(s) => s,
            None => { return None; },
        };
        match s.checked_abs() {
            Some(v) => Some(v.div_int(2)),
            None => None,
        }
    }

    /// The area of the triangle by the shoelace formula.
    pub fn area(&self) -> (area: Coord)
        requires
            self@.area() is Some,
        ensures
            Some(area) == self@.area(),
    {
        self.checked_area().unwrap()
    }

    /// The explicit value, or the area; `None` where the area is needed and
    /// cannot be computed.
    pub fn checked_effective_value(&self) -> (r: Option<Coord>)
        ensures
            r == self@.effective_value(),
    {
        match self.value {
            Some(v) => Some(v),
            None => self.checked_area(),
        }
    }

    /// The effective value of this triangle.
    pub fn effective_value(&self) -> (value: Coord)
        requires
            self@.effective_value() is Some,
        ensures
            Some(value) == self@.effective_value(),
    {
        self.checked_effective_value().unwrap()
    }

    /// The canonical hash: the same for every order of the vertices.
    pub fn hash(&self) -> (h: Sha256Hash)
        ensures
            h@ == self@.hash(),
    {
        let (h1, h2, h3) = sort_hashes(self.a.hash(), self.b.hash(), self.c.hash());
        let mut buf: Vec<u8> = Vec::new();
        append_bytes(&mut buf, h1.as_slice());
        append_bytes(&mut buf, h2.as_slice());
        append_bytes(&mut buf, h3.as_slice());
        append_bytes(&mut buf, self.owner.as_str().as_bytes());
        match self.value {
            Some(v) => {
                append_u64_le(&mut buf, v.bits as u64);
            },
            None => {
                assert(buf@ + Seq::<u8>::empty() =~= buf@);
            },
        }
        sha256_digest(buf.as_slice())
    }

    /// The hash in hexadecimal.
    pub fn hash_str(&self) -> (s: String)
        ensures
            s@ == hex_string(self@.hash()),
    {
        let h = self.hash();
        hex_encode(h.as_slice())
    }

    /// The canonical genesis triangle: near-equilateral, with side
    /// `1.7320508` and height `1.5`, owned by `genesis_owner`.
    pub fn genesis() -> (t: Triangle)
        ensures
            t.a == (Point { x: Coord { bits: 0 }, y: Coord { bits: 0 } }),
            t.b == (Point { x: Coord { bits: 0x1_bb67_ae65 }, y: Coord { bits: 0 } }),
            t.c == (Point { x: Coord { bits: 0xddb3_d733 }, y: Coord { bits: 0x1_8000_0000 } }),
            t.parent_hash is None,
            t.owner@ == "genesis_owner"@,
            t.value is None,
    {
        Triangle {
            a: Point { x: Coord { bits: 0 }, y: Coord { bits: 0 } },
            b: Point { x: Coord { bits: 0x1_bb67_ae65 }, y: Coord { bits: 0 } },
            c: Point { x: Coord { bits: 0xddb3_d733 }, y: Coord { bits: 0x1_8000_0000 } },
            parent_hash: None,
            owner: "genesis_owner".to_owned(),
            value: None,
        }
    }

    /// The vertices of child `i` of the midpoint subdivision.
    pub fn child_vertices(&self, i: usize) -> (v: (Point, Point, Point))
        requires
            i < 3,
        ensures
            v == self@.child_vertices(i as int),
    {
        if i == 0 {
            (self.a, self.a.midpoint(&self.b), self.c.midpoint(&self.a))
        } else if i == 1 {
            (self.a.midpoint(&self.b), self.b, self.b.midpoint(&self.c))
        } else {
            (self.c.midpoint(&self.a), self.b.midpoint(&self.c), self.c)
        }
    }

    /// Splits the triangle at the midpoints of its sides into the three
    /// corner triangles `(A, M_AB, M_CA)`, `(M_AB, B, M_BC)`, `(M_CA, M_BC, C)`.
    /// Each child names this triangle as its parent, keeps its owner, and
    /// carries a third of its effective value; the third child also takes
    /// the rounding remainder, so that the three values add up to the
    /// parent's.
    pub fn subdivide(&self) -> (children: [Triangle; 3])
        requires
            self@.effective_value() is Some,
        ensures
            forall|i: int|
                0 <= i < 3 ==> (#[trigger] children[i])@ == self@.child(
                    i,
                    self@.effective_value().unwrap(),
                ),
    {
        let mid_ab = self.a.midpoint(&self.b);
        let mid_bc = self.b.midpoint(&self.c);
        let mid_ca = self.c.midpoint(&self.a);
        let parent_hash = Some(self.hash());
        let total = self.effective_value();
        proof {
            lemma_trunc_div_bounds(total@, 3);
        }
        let share = total.div_int(3);
        let rest = Coord { bits: total.bits - 2 * share.bits };
        let t1 = Triangle {
            a: self.a,
            b: mid_ab,
            c: mid_ca,
            parent_hash,
            owner: self.owner.clone(),
            value: Some(share),
        };
        let t2 = Triangle {
            a: mid_ab,
            b: self.b,
            c: mid_bc,
            parent_hash,
            owner: self.owner.clone(),
            value: Some(share),
        };
        let t3 = Triangle {
            a: mid_ca,
            b: mid_bc,
            c: self.c,
            parent_hash,
            owner: self.owner.clone(),
            value: Some(rest),
        };
        [t1, t2, t3]
    }

    /// Whether the triangle is geometrically valid: every vertex within the
    /// magnitude bound, and an area that can be computed and exceeds the
    /// tolerance.
    pub fn is_valid(&self) -> (ok: bool)
        ensures
            ok == self@.is_valid(),
    {
        if !self.a.is_valid() || !self.b.is_valid() || !self.c.is_valid() {
            return false;
        }
        match self.checked_area() {
            Some(area) => area.bits > GEOMETRIC_TOLERANCE_BITS,
            None => false,
        }
    }
}

} // verus!
