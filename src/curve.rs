//! Points of the STARK curve `y^2 = x^3 + x + b` over the base field.
//!
//! Group operations are done by `starknet_types_core::curve`; their results
//! are stated here by the affine chord-and-tangent rule.
use crate::field::{from_limbs, prime, BaseField};
use crate::scalar::ScalarField;
use starknet_types_core::curve::ProjectivePoint;
use starknet_types_core::felt::Felt;
use vstd::arithmetic::div_mod::{
    lemma_add_mod_noop, lemma_fundamental_div_mod_converse, lemma_mod_twice,
    lemma_mul_mod_noop_left, lemma_small_mod,
};
use vstd::prelude::*;

verus! {

/// The coefficient `b` of the curve equation.
pub open spec fn curve_b() -> int {
    from_limbs(500484584450703582, 1517248451085576389, 6961107535718323649, 17640033189612134025)
}

/// A point as mathematics sees it: the point at infinity, or affine
/// coordinates in `0 .. prime()`.
pub struct EcPoint {
    pub inf: bool,
    pub x: int,
    pub y: int,
}

/// The point at infinity, the group's identity.
pub open spec fn ec_identity() -> EcPoint {
    EcPoint { inf: true, x: 0, y: 0 }
}

/// The curve's fixed generator.
pub open spec fn ec_generator() -> EcPoint {
    EcPoint {
        inf: false,
        x: from_limbs(139354034386081563, 8929773026111713479, 16045478414795676128, 4427669054245031882),
        y: from_limbs(24321223154767664, 13240099127393971298, 16020408682327983011, 2914673436299680799),
    }
}

/// Whether a point satisfies the curve equation (the point at infinity does).
pub open spec fn on_curve(p: EcPoint) -> bool {
    p.inf || (p.y * p.y) % prime() == curve_rhs(p.x)
}

/// `a` to the power `e`, modulo the prime.
pub open spec fn pow_mod(a: int, e: nat) -> int
    decreases e,
{
    if e == 0 {
        1
    } else {
        (pow_mod(a, (e - 1) as nat) * a) % prime()
    }
}

/// The inverse of a non-zero `a` in the base field, by Fermat's little theorem.
pub open spec fn inv_mod(a: int) -> int {
    pow_mod(a, (prime() - 2) as nat)
}

/// The sum of two points on the curve, by the chord-and-tangent rule.
pub open spec fn ec_add(p: EcPoint, q: EcPoint) -> EcPoint {
    if p.inf {
        q
    } else if q.inf {
        p
    } else if p.x == q.x && (p.y + q.y) % prime() == 0 {
        ec_identity()
    } else {
        let l = if p.x == q.x {
            ((3 * p.x * p.x + 1) * inv_mod(2 * p.y)) % prime()
        } else {
            ((q.y - p.y) * inv_mod(q.x - p.x)) % prime()
        };
        let x3 = (l * l - p.x - q.x) % prime();
        EcPoint { inf: false, x: x3, y: (l * (p.x - x3) - p.y) % prime() }
    }
}

/// `p` added to itself `k` times.
pub open spec fn ec_mul(k: nat, p: EcPoint) -> EcPoint
    decreases k,
{
    if k == 0 {
        ec_identity()
    } else {
        ec_add(ec_mul((k - 1) as nat, p), p)
    }
}

/// The generator satisfies the curve equation.
pub proof fn lemma_generator_on_curve()
    ensures
        on_curve(ec_generator()),
{
    let g = ec_generator();
    let q1 = from_limbs(1026126919101433, 17270589753181413449, 7659552398658803424, 362882637143731315);
    let r = from_limbs(39828956081841820, 2923430530743457605, 6630361469623602478, 11559750403005964110);
    let q2 = from_limbs(254489092070856, 9859891518111341607, 14289962582319580663, 3208287124525301780)
        * from_limbs(1, 0, 0, 0) * 0x1_0000_0000_0000_0000
        + from_limbs(15142098324714329634, 7982828588059138712, 3331862168879795591, 9209881396370106349);
    let (x, y, b, p) = (g.x, g.y, curve_b(), prime());
    assert(y * y == q1 * p + r) by (nonlinear_arith)
        requires
            y == from_limbs(24321223154767664, 13240099127393971298, 16020408682327983011, 2914673436299680799),
            q1 == from_limbs(1026126919101433, 17270589753181413449, 7659552398658803424, 362882637143731315),
            r == from_limbs(39828956081841820, 2923430530743457605, 6630361469623602478, 11559750403005964110),
            p == from_limbs(576460752303423505, 0, 0, 1),
    ;
    assert(x * x * x + x + b == q2 * p + r) by (nonlinear_arith)
        requires
            x == from_limbs(139354034386081563, 8929773026111713479, 16045478414795676128, 4427669054245031882),
            b == from_limbs(500484584450703582, 1517248451085576389, 6961107535718323649, 17640033189612134025),
            q2 == from_limbs(254489092070856, 9859891518111341607, 14289962582319580663, 3208287124525301780)
                * from_limbs(1, 0, 0, 0) * 0x1_0000_0000_0000_0000 + from_limbs(
                15142098324714329634,
                7982828588059138712,
                3331862168879795591,
                9209881396370106349,
            ),
            r == from_limbs(39828956081841820, 2923430530743457605, 6630361469623602478, 11559750403005964110),
            p == from_limbs(576460752303423505, 0, 0, 1),
    ;
    lemma_fundamental_div_mod_converse(g.y * g.y, prime(), q1, r);
    lemma_fundamental_div_mod_converse(g.x * g.x * g.x + g.x + curve_b(), prime(), q2, r);
}

/// The right-hand side of the curve equation at `x`.
pub open spec fn curve_rhs(x: int) -> int {
    (x * x * x + x + curve_b()) % prime()
}

/// The right-hand side of the curve equation at `x`.
pub fn curve_rhs_of(x: &BaseField) -> (r: BaseField)
    ensures
        r.val() == curve_rhs(x.val()),
{
    let b = BaseField::from_limbs(
        500484584450703582,
        1517248451085576389,
        6961107535718323649,
        17640033189612134025,
    );
    let xx = x.mul(x);
    let xxx = xx.mul(x);
    let rhs = xxx.add(x).add(&b);
    proof {
        x.lemma_range();
        let p = prime();
        let x = x.val();
        lemma_small_mod(curve_b() as nat, p as nat);
        lemma_mul_mod_noop_left(x * x, x, p);
        lemma_add_mod_noop(x * x * x, x, p);
        lemma_mod_twice(x * x * x, p);
        lemma_small_mod(x as nat, p as nat);
        lemma_add_mod_noop(x * x * x + x, curve_b(), p);
        lemma_mod_twice(x * x * x + x, p);
    }
    rhs
}

/// A point with its coordinates held as base-field elements; the
/// coordinates of the point at infinity are held as zero.
#[derive(Clone, Copy, Debug)]
pub struct Point {
    pub x: BaseField,
    pub y: BaseField,
    pub infinity: bool,
}

impl View for Point {
    type V = EcPoint;

    open spec fn view(&self) -> EcPoint {
        if self.infinity {
            ec_identity()
        } else {
            EcPoint { inf: false, x: self.x.val(), y: self.y.val() }
        }
    }
}

impl Point {
    /// The affine point `(x, y)`; it is not checked to lie on the curve.
    pub fn new(x: BaseField, y: BaseField) -> (r: Point)
        ensures
            r@ == (EcPoint { inf: false, x: x.val(), y: y.val() }),
    {
        Point { x, y, infinity: false }
    }

    /// The point at infinity.
    pub fn identity() -> (r: Point)
        ensures
            r@ == ec_identity(),
    {
        Point { x: BaseField::zero(), y: BaseField::zero(), infinity: true }
    }

    /// The curve's generator.
    pub fn generator() -> (r: Point)
        ensures
            r@ == ec_generator(),
            on_curve(r@),
    {
        let x = BaseField::from_limbs(
            139354034386081563,
            8929773026111713479,
            16045478414795676128,
            4427669054245031882,
        );
        let y = BaseField::from_limbs(
            24321223154767664,
            13240099127393971298,
            16020408682327983011,
            2914673436299680799,
        );
        proof {
            lemma_small_mod(ec_generator().x as nat, prime() as nat);
            lemma_small_mod(ec_generator().y as nat, prime() as nat);
            lemma_generator_on_curve();
        }
        Point { x, y, infinity: false }
    }

    /// Whether the point lies on the curve (the point at infinity does).
    pub fn is_on_curve(&self) -> (r: bool)
        ensures
            r == on_curve(self@),
    {
        if self.infinity {
            return true;
        }
        let lhs = self.y.mul(&self.y);
        let rhs = curve_rhs_of(&self.x);
        lhs.eq(&rhs)
    }

    /// The coordinates, zero for the point at infinity.
    pub fn coordinates(&self) -> (r: (BaseField, BaseField))
        ensures
            r.0.val() == self@.x,
            r.1.val() == self@.y,
    {
        if self.infinity {
            (BaseField::zero(), BaseField::zero())
        } else {
            (self.x, self.y)
        }
    }

    /// The sum of two points on the curve.
    pub fn add(&self, o: &Point) -> (r: Point)
        requires
            on_curve(self@),
            on_curve(o@),
        ensures
            r@ == ec_add(self@, o@),
            on_curve(r@),
    {
        curve_add(self, o)
    }

    /// The point added to itself `k` times.
    pub fn mul(&self, k: &ScalarField) -> (r: Point)
        requires
            on_curve(self@),
        ensures
            r@ == ec_mul(k.val() as nat, self@),
            on_curve(r@),
    {
        let kb = k.to_base();
        proof {
            kb.lemma_range();
        }
        curve_mul(self, &kb)
    }
}

/// Relies on `ProjectivePoint + ProjectivePoint`: the group law of the curve,
/// under which the sum of two points on the curve is on the curve. A point
/// goes in as `(x : y : 1)`, the point at infinity with `z = 0`, and comes
/// out of `to_affine`, which fails exactly for `z = 0`.
#[verifier::external_body]
fn curve_add(p: &Point, q: &Point) -> (r: Point)
    requires
        on_curve(p@),
        on_curve(q@),
    ensures
        r@ == ec_add(p@, q@),
        on_curve(r@),
{
    let f = Felt::from_bytes_be;
    let pp = ProjectivePoint::new(f(&p.x.bytes), f(&p.y.bytes), Felt::from(!p.infinity));
    let s = &pp + &ProjectivePoint::new(f(&q.x.bytes), f(&q.y.bytes), Felt::from(!q.infinity));
    let (x, y, infinity) = match s.to_affine() {
        Ok(a) => (a.x().to_bytes_be(), a.y().to_bytes_be(), false),
        Err(_) => ([0u8; 32], [0u8; 32], true),
    };
    Point { x: BaseField { bytes: x }, y: BaseField { bytes: y }, infinity }
}

/// Relies on `&ProjectivePoint * Felt`: the point added to itself `k` times,
/// `k` being the integer value of the scalar; on the curve when the point is.
/// Points go in and out as in `curve_add`.
#[verifier::external_body]
fn curve_mul(p: &Point, k: &BaseField) -> (r: Point)
    requires
        on_curve(p@),
    ensures
        r@ == ec_mul(k.val() as nat, p@),
        on_curve(r@),
{
    let f = Felt::from_bytes_be;
    let s = &ProjectivePoint::new(f(&p.x.bytes), f(&p.y.bytes), Felt::from(!p.infinity)) * f(&k.bytes);
    let (x, y, infinity) = match s.to_affine() {
        Ok(a) => (a.x().to_bytes_be(), a.y().to_bytes_be(), false),
        Err(_) => ([0u8; 32], [0u8; 32], true),
    };
    Point { x: BaseField { bytes: x }, y: BaseField { bytes: y }, infinity }
}

} // verus!
