//! Exact scalar and vector arithmetic: integer three-vectors, their
//! spec-level algebra over unbounded integers, and positive-denominator
//! rationals used for intersection parameters and distances.

use vstd::prelude::*;

verus! {

/// Bound kept by every stored rational that is ever compared against another:
/// with numerator and denominator at most this value, the cross-multiplied
/// products stay well inside `i128`.
pub const RATIO_LIMIT: i128 = 0x1000000000000000;

/// A quantised geometric vector: a triple of bounded integers.
#[derive(Clone, Copy, PartialEq, Eq, Structural, Debug)]
pub struct Vec3i {
    pub x: i64,
    pub y: i64,
    pub z: i64,
}

impl View for Vec3i {
    type V = (int, int, int);

    open spec fn view(&self) -> (int, int, int) {
        (self.x as int, self.y as int, self.z as int)
    }
}

impl Vec3i {
    pub fn new(x: i64, y: i64, z: i64) -> (r: Vec3i)
        ensures
            r@ == (x as int, y as int, z as int),
    {
        Vec3i { x, y, z }
    }
}

/// A wide intermediate vector: the same algebra carried out in `i128`.
#[derive(Clone, Copy, Debug)]
pub struct Vec3w {
    pub x: i128,
    pub y: i128,
    pub z: i128,
}

impl View for Vec3w {
    type V = (int, int, int);

    open spec fn view(&self) -> (int, int, int) {
        (self.x as int, self.y as int, self.z as int)
    }
}

/// Componentwise bound on an integer triple.
pub open spec fn bounded3(v: (int, int, int), b: int) -> bool {
    &&& -b <= v.0 <= b
    &&& -b <= v.1 <= b
    &&& -b <= v.2 <= b
}

pub open spec fn sdot(a: (int, int, int), b: (int, int, int)) -> int {
    a.0 * b.0 + a.1 * b.1 + a.2 * b.2
}

pub open spec fn scross(a: (int, int, int), b: (int, int, int)) -> (int, int, int) {
    (a.1 * b.2 - a.2 * b.1, a.2 * b.0 - a.0 * b.2, a.0 * b.1 - a.1 * b.0)
}

pub open spec fn ssub(a: (int, int, int), b: (int, int, int)) -> (int, int, int) {
    (a.0 - b.0, a.1 - b.1, a.2 - b.2)
}

pub open spec fn sadd(a: (int, int, int), b: (int, int, int)) -> (int, int, int) {
    (a.0 + b.0, a.1 + b.1, a.2 + b.2)
}

pub open spec fn sscale(k: int, a: (int, int, int)) -> (int, int, int) {
    (k * a.0, k * a.1, k * a.2)
}

/// Multiplying by a sign leaves a value or negates it.
pub proof fn lemma_sgn_mul(s: int, x: int) by (nonlinear_arith)
    requires
        s == 1 || s == -1,
    ensures
        s == 1 ==> s * x == x,
        s == -1 ==> s * x == -x,
{
}

/// |a·b| <= ba·bb when |a| <= ba and |b| <= bb.
pub proof fn lemma_mul_bound(a: int, b: int, ba: int, bb: int) by (nonlinear_arith)
    requires
        -ba <= a <= ba,
        -bb <= b <= bb,
    ensures
        -(ba * bb) <= a * b <= ba * bb,
{
}

/// Componentwise bound on a dot product of bounded triples.
pub proof fn lemma_dot_bound(a: (int, int, int), b: (int, int, int), ba: int, bb: int)
    requires
        bounded3(a, ba),
        bounded3(b, bb),
    ensures
        -(3 * (ba * bb)) <= sdot(a, b) <= 3 * (ba * bb),
{
    lemma_mul_bound(a.0, b.0, ba, bb);
    lemma_mul_bound(a.1, b.1, ba, bb);
    lemma_mul_bound(a.2, b.2, ba, bb);
}

/// Componentwise bound on a cross product of bounded triples.
pub proof fn lemma_cross_bound(a: (int, int, int), b: (int, int, int), ba: int, bb: int)
    requires
        bounded3(a, ba),
        bounded3(b, bb),
    ensures
        bounded3(scross(a, b), 2 * (ba * bb)),
{
    lemma_mul_bound(a.1, b.2, ba, bb);
    lemma_mul_bound(a.2, b.1, ba, bb);
    lemma_mul_bound(a.2, b.0, ba, bb);
    lemma_mul_bound(a.0, b.2, ba, bb);
    lemma_mul_bound(a.0, b.1, ba, bb);
    lemma_mul_bound(a.1, b.0, ba, bb);
}

/// Widen a quantised vector into the `i128` algebra.
pub fn widen(a: &Vec3i) -> (r: Vec3w)
    ensures
        r@ == a@,
{
    Vec3w { x: a.x as i128, y: a.y as i128, z: a.z as i128 }
}

pub fn wsub(a: &Vec3w, b: &Vec3w, Ghost(ba): Ghost<int>, Ghost(bb): Ghost<int>) -> (r: Vec3w)
    requires
        bounded3(a@, ba),
        bounded3(b@, bb),
        ba + bb <= i128::MAX,
    ensures
        r@ == ssub(a@, b@),
        bounded3(r@, ba + bb),
{
    Vec3w { x: a.x - b.x, y: a.y - b.y, z: a.z - b.z }
}

pub fn wdot(a: &Vec3w, b: &Vec3w, Ghost(ba): Ghost<int>, Ghost(bb): Ghost<int>) -> (r: i128)
    requires
        bounded3(a@, ba),
        bounded3(b@, bb),
        3 * (ba * bb) <= i128::MAX,
    ensures
        r == sdot(a@, b@),
        -(3 * (ba * bb)) <= r <= 3 * (ba * bb),
{
    proof {
        lemma_mul_bound(a@.0, b@.0, ba, bb);
        lemma_mul_bound(a@.1, b@.1, ba, bb);
        lemma_mul_bound(a@.2, b@.2, ba, bb);
    }
    a.x * b.x + a.y * b.y + a.z * b.z
}

pub fn wcross(a: &Vec3w, b: &Vec3w, Ghost(ba): Ghost<int>, Ghost(bb): Ghost<int>) -> (r: Vec3w)
    requires
        bounded3(a@, ba),
        bounded3(b@, bb),
        2 * (ba * bb) <= i128::MAX,
    ensures
        r@ == scross(a@, b@),
        bounded3(r@, 2 * (ba * bb)),
{
    proof {
        lemma_cross_bound(a@, b@, ba, bb);
        lemma_mul_bound(a@.1, b@.2, ba, bb);
        lemma_mul_bound(a@.2, b@.1, ba, bb);
        lemma_mul_bound(a@.2, b@.0, ba, bb);
        lemma_mul_bound(a@.0, b@.2, ba, bb);
        lemma_mul_bound(a@.0, b@.1, ba, bb);
        lemma_mul_bound(a@.1, b@.0, ba, bb);
    }
    Vec3w {
        x: a.y * b.z - a.z * b.y,
        y: a.z * b.x - a.x * b.z,
        z: a.x * b.y - a.y * b.x,
    }
}

pub fn wscale(k: i128, a: &Vec3w, Ghost(bk): Ghost<int>, Ghost(ba): Ghost<int>) -> (r: Vec3w)
    requires
        -bk <= k <= bk,
        bounded3(a@, ba),
        bk * ba <= i128::MAX,
    ensures
        r@ == sscale(k as int, a@),
        bounded3(r@, bk * ba),
{
    proof {
        lemma_mul_bound(k as int, a@.0, bk, ba);
        lemma_mul_bound(k as int, a@.1, bk, ba);
        lemma_mul_bound(k as int, a@.2, bk, ba);
    }
    Vec3w { x: k * a.x, y: k * a.y, z: k * a.z }
}

pub fn wadd(a: &Vec3w, b: &Vec3w, Ghost(ba): Ghost<int>, Ghost(bb): Ghost<int>) -> (r: Vec3w)
    requires
        bounded3(a@, ba),
        bounded3(b@, bb),
        ba + bb <= i128::MAX,
    ensures
        r@ == sadd(a@, b@),
        bounded3(r@, ba + bb),
{
    Vec3w { x: a.x + b.x, y: a.y + b.y, z: a.z + b.z }
}

/// An exact rational point or vector: integer numerators over one positive
/// denominator.
#[derive(Clone, Copy, Debug)]
pub struct RatVec3 {
    pub num: Vec3w,
    pub den: i128,
}

impl RatVec3 {
    pub open spec fn wf(self) -> bool {
        self.den > 0
    }

    pub fn new(num: Vec3w, den: i128) -> (r: RatVec3)
        requires
            den > 0,
        ensures
            r.num == num,
            r.den == den,
            r.wf(),
    {
        RatVec3 { num, den }
    }
}

/// An exact rational with a positive denominator.
#[derive(Clone, Copy, Debug)]
pub struct Ratio {
    pub num: i128,
    pub den: i128,
}

impl View for Ratio {
    type V = (int, int);

    open spec fn view(&self) -> (int, int) {
        (self.num as int, self.den as int)
    }
}

impl Ratio {
    /// Well-formed: positive denominator.
    pub open spec fn wf(self) -> bool {
        self.den > 0
    }

    /// Numerator and denominator small enough for cross-multiplied compares.
    pub open spec fn cmp_bounded(self) -> bool {
        &&& -RATIO_LIMIT <= self.num <= RATIO_LIMIT
        &&& self.den <= RATIO_LIMIT
    }

    pub fn new(num: i128, den: i128) -> (r: Ratio)
        requires
            den > 0,
        ensures
            r@ == (num as int, den as int),
            r.wf(),
    {
        Ratio { num, den }
    }
}

/// a <= b as rationals, both with positive denominators.
pub open spec fn rat_le(a: (int, int), b: (int, int)) -> bool {
    a.0 * b.1 <= b.0 * a.1
}

/// a == b as rationals, both with positive denominators.
pub open spec fn rat_eq(a: (int, int), b: (int, int)) -> bool {
    a.0 * b.1 == b.0 * a.1
}

pub fn ratio_le(a: &Ratio, b: &Ratio) -> (r: bool)
    requires
        a.wf(),
        b.wf(),
        a.cmp_bounded(),
        b.cmp_bounded(),
    ensures
        r == rat_le(a@, b@),
{
    proof {
        lemma_mul_bound(a@.0, b@.1, RATIO_LIMIT as int, RATIO_LIMIT as int);
        lemma_mul_bound(b@.0, a@.1, RATIO_LIMIT as int, RATIO_LIMIT as int);
    }
    a.num * b.den <= b.num * a.den
}

/// rat_le is total and transitive over positive denominators; transitivity
/// is what the sortedness arguments lean on.
pub proof fn lemma_rat_le_trans(a: (int, int), b: (int, int), c: (int, int)) by (nonlinear_arith)
    requires
        a.1 > 0,
        b.1 > 0,
        c.1 > 0,
        rat_le(a, b),
        rat_le(b, c),
    ensures
        rat_le(a, c),
{
}

pub proof fn lemma_rat_le_total(a: (int, int), b: (int, int)) by (nonlinear_arith)
    requires
        a.1 > 0,
        b.1 > 0,
    ensures
        rat_le(a, b) || rat_le(b, a),
{
}

} // verus!
