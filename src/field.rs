//! Elements of the STARK base field, and the field's and the curve group's
//! orders.
//!
//! An element is held as 32 big-endian bytes; its value is those bytes read
//! as a number and reduced modulo the field's prime. The arithmetic itself is
//! done by `starknet_types_core::felt::Felt`.
use starknet_types_core::felt::{Felt, NonZeroFelt};
use vstd::arithmetic::div_mod::{
    lemma_add_mod_noop, lemma_mod_add_multiples_vanish, lemma_mod_multiples_vanish,
    lemma_mod_twice, lemma_mul_mod_noop_left, lemma_small_mod,
};
use vstd::prelude::*;

verus! {

/// The number whose base-2^64 digits are `d3 d2 d1 d0`, most significant first.
pub open spec fn from_limbs(d3: int, d2: int, d1: int, d0: int) -> int {
    ((d3 * 0x1_0000_0000_0000_0000 + d2) * 0x1_0000_0000_0000_0000 + d1) * 0x1_0000_0000_0000_0000 + d0
}

/// The prime of the base field: 2^251 + 17 * 2^192 + 1.
pub open spec fn prime() -> int {
    from_limbs(576460752303423505, 0, 0, 1)
}

/// The order of the curve's group, which is the prime of the scalar field.
pub open spec fn group_order() -> int {
    from_limbs(576460752303423504, 18446744073709551615, 13222870243701404210, 2190616671734353199)
}

/// The number that big-endian bytes spell.
pub open spec fn be_value(s: Seq<u8>) -> nat
    decreases s.len(),
{
    if s.len() == 0 {
        0
    } else {
        be_value(s.drop_last()) * 256 + s.last() as nat
    }
}

/// An element of the base field.
#[derive(Clone, Copy, Debug)]
pub struct BaseField {
    pub(crate) bytes: [u8; 32],
}

impl BaseField {
    /// The value of the element, in `0 .. prime()`.
    pub closed spec fn val(&self) -> int {
        be_value(self.bytes@) as int % prime()
    }

    /// Every value lies in `0 .. prime()`.
    pub proof fn lemma_range(&self)
        ensures
            0 <= self.val() < prime(),
    {
    }

    /// The element whose value is `x`.
    pub fn from_u64(x: u64) -> (r: BaseField)
        ensures
            r.val() == x as int,
    {
        felt_from_u64(x)
    }

    /// The zero element.
    pub fn zero() -> (r: BaseField)
        ensures
            r.val() == 0,
    {
        felt_from_u64(0)
    }

    /// The big-endian bytes of the element's value.
    pub fn to_bytes_be(&self) -> (r: [u8; 32])
        ensures
            be_value(r@) == self.val(),
    {
        felt_canonical(self)
    }

    /// The element that big-endian bytes spell, when that number is below the
    /// field's prime.
    pub fn from_bytes_be(bytes: [u8; 32]) -> (r: Option<BaseField>)
        ensures
            r matches Some(e) ==> be_value(bytes@) < prime() && e.val() == be_value(bytes@),
            r is None ==> be_value(bytes@) >= prime(),
    {
        let e = BaseField { bytes };
        let c = felt_canonical(&e);
        let mut i: usize = 0;
        while i < 32
            invariant
                i <= 32,
                e.bytes@ == bytes@,
                be_value(c@) == e.val(),
                forall|j: int| 0 <= j < i ==> c[j] == bytes[j],
            decreases 32 - i,
        {
            if c[i] != bytes[i] {
                proof {
                    if be_value(bytes@) < prime() {
                        lemma_small_mod(be_value(bytes@), prime() as nat);
                        lemma_be_value_injective(c@, bytes@);
                        assert(c@[i as int] == bytes@[i as int]);
                    }
                }
                return None;
            }
            i = i + 1;
        }
        assert(c@ =~= bytes@);
        Some(e)
    }

    /// Sum in the field.
    pub fn add(&self, o: &BaseField) -> (r: BaseField)
        ensures
            r.val() == (self.val() + o.val()) % prime(),
    {
        felt_add(self, o)
    }

    /// Difference in the field.
    pub fn sub(&self, o: &BaseField) -> (r: BaseField)
        ensures
            r.val() == (self.val() - o.val()) % prime(),
    {
        felt_sub(self, o)
    }

    /// Product in the field.
    pub fn mul(&self, o: &BaseField) -> (r: BaseField)
        ensures
            r.val() == (self.val() * o.val()) % prime(),
    {
        felt_mul(self, o)
    }

    /// Whether the values are equal.
    pub fn eq(&self, o: &BaseField) -> (r: bool)
        ensures
            r == (self.val() == o.val()),
    {
        !felt_lt(self, o) && !felt_lt(o, self)
    }

    /// Whether the value is zero.
    pub fn is_zero(&self) -> (r: bool)
        ensures
            r == (self.val() == 0),
    {
        let z = BaseField::zero();
        self.eq(&z)
    }
}

/// Whether `a` has a square root in the base field.
pub open spec fn is_square(a: int) -> bool {
    exists|y: int| 0 <= y < prime() && #[trigger] square_mod(y) == a
}

/// The square of `y` in the base field.
pub open spec fn square_mod(y: int) -> int {
    (y * y) % prime()
}

/// Whether `y` is the smaller of the two square roots of `a`.
pub open spec fn is_lower_root(y: int, a: int) -> bool {
    0 <= y < prime() && square_mod(y) == a && y <= (prime() - y) % prime()
}

/// The smaller of the two square roots of `a`, as integers in `0 .. prime()`.
pub open spec fn lower_root(a: int) -> int {
    choose|y: int| is_lower_root(y, a)
}

/// Every square has a smaller root, and `lower_root` picks it.
pub proof fn lemma_lower_root(a: int)
    requires
        is_square(a),
    ensures
        is_lower_root(lower_root(a), a),
{
    let p = prime();
    let y0 = choose|y: int| 0 <= y < p && #[trigger] square_mod(y) == a;
    if y0 == 0 || y0 <= p - y0 {
        if y0 != 0 {
            lemma_small_mod((p - y0) as nat, p as nat);
        }
        assert(is_lower_root(y0, a));
    } else {
        let y1 = p - y0;
        assert(y1 * y1 == (p - 2 * y0) * p + y0 * y0) by (nonlinear_arith)
            requires
                y1 == p - y0,
        ;
        lemma_mod_multiples_vanish(p - 2 * y0, y0 * y0, p);
        lemma_small_mod(y0 as nat, p as nat);
        assert(is_lower_root(y1, a));
    }
}

impl BaseField {
    /// The smaller square root of the element, or `None` when it has none.
    pub fn sqrt(&self) -> (r: Option<BaseField>)
        ensures
            r matches Some(y) ==> y.val() == lower_root(self.val()) && is_lower_root(
                y.val(),
                self.val(),
            ),
            r is None <==> !is_square(self.val()),
    {
        felt_sqrt(self)
    }

    /// The element whose value is the number with base-2^64 digits
    /// `d3 d2 d1 d0`, reduced modulo the prime.
    pub fn from_limbs(d3: u64, d2: u64, d1: u64, d0: u64) -> (r: BaseField)
        ensures
            r.val() == from_limbs(d3 as int, d2 as int, d1 as int, d0 as int) % prime(),
    {
        let half = felt_from_u64(0x1_0000_0000);
        let radix = felt_mul(&half, &half);
        proof {
            lemma_small_mod(0x1_0000_0000_0000_0000nat, prime() as nat);
        }
        let t = felt_add(&felt_mul(&felt_from_u64(d3), &radix), &felt_from_u64(d2));
        let t = felt_add(&felt_mul(&t, &radix), &felt_from_u64(d1));
        let r = felt_add(&felt_mul(&t, &radix), &felt_from_u64(d0));
        proof {
            let p = prime();
            let w = 0x1_0000_0000_0000_0000int;
            let a = d3 as int * w + d2 as int;
            let b = a * w + d1 as int;
            let c = b * w + d0 as int;
            lemma_mul_mod_noop_left(d3 as int, w, p);
            lemma_add_mod_noop(d3 as int * w, d2 as int, p);
            lemma_mod_twice(d3 as int * w, p);
            lemma_small_mod(d2 as nat, p as nat);
            lemma_mul_mod_noop_left(a, w, p);
            lemma_add_mod_noop(a * w, d1 as int, p);
            lemma_mod_twice(a * w, p);
            lemma_small_mod(d1 as nat, p as nat);
            lemma_mul_mod_noop_left(b, w, p);
            lemma_add_mod_noop(b * w, d0 as int, p);
            lemma_mod_twice(b * w, p);
            lemma_small_mod(d0 as nat, p as nat);
        }
        r
    }

    /// The element whose value is the curve's group order.
    pub fn group_order_element() -> (r: BaseField)
        ensures
            r.val() == group_order(),
    {
        let r = BaseField::from_limbs(
            576460752303423504,
            18446744073709551615,
            13222870243701404210,
            2190616671734353199,
        );
        proof {
            lemma_small_mod(group_order() as nat, prime() as nat);
        }
        r
    }

    /// The remainder of the value divided by `n`'s value.
    pub fn rem(&self, n: &BaseField) -> (r: BaseField)
        requires
            n.val() != 0,
        ensures
            r.val() == self.val() % n.val(),
    {
        felt_mod_floor(self, n)
    }

    /// The product of the values reduced modulo `n`'s value.
    pub fn mul_rem(&self, o: &BaseField, n: &BaseField) -> (r: BaseField)
        requires
            n.val() != 0,
        ensures
            r.val() == (self.val() * o.val()) % n.val(),
    {
        felt_mul_mod(self, o, n)
    }

    /// The multiplicative inverse, or `None` for zero.
    pub fn inverse(&self) -> (r: Option<BaseField>)
        ensures
            r matches Some(i) ==> (i.val() * self.val()) % prime() == 1,
            r is None <==> self.val() == 0,
    {
        felt_inverse(self)
    }

    /// The inverse of `a` modulo `n`'s value, or `None` when they share a
    /// factor.
    pub fn inverse_rem(&self, n: &BaseField) -> (r: Option<BaseField>)
        requires
            n.val() > 1,
        ensures
            r matches Some(i) ==> (i.val() * self.val()) % n.val() == 1,
            r is None <==> gcd(self.val() as nat, n.val() as nat) != 1,
    {
        felt_mod_inverse(self, n)
    }

    /// The additive inverse.
    pub fn neg(&self) -> (r: BaseField)
        ensures
            r.val() == (prime() - self.val()) % prime(),
    {
        let z = BaseField::zero();
        let r = z.sub(self);
        proof {
            self.lemma_range();
            lemma_mod_add_multiples_vanish(-self.val(), prime());
        }
        r
    }

    /// Whether the value is below `o`'s value.
    pub fn lt(&self, o: &BaseField) -> (r: bool)
        ensures
            r == (self.val() < o.val()),
    {
        felt_lt(self, o)
    }
}

/// Two byte sequences of one length spell one number only if they are equal.
proof fn lemma_be_value_injective(a: Seq<u8>, b: Seq<u8>)
    requires
        a.len() == b.len(),
        be_value(a) == be_value(b),
    ensures
        a =~= b,
    decreases a.len(),
{
    if a.len() > 0 {
        let (va, vb) = (be_value(a.drop_last()), be_value(b.drop_last()));
        let (la, lb) = (a.last() as int, b.last() as int);
        assert(va == vb && la == lb) by (nonlinear_arith)
            requires
                va * 256 + la == vb * 256 + lb,
                0 <= la < 256,
                0 <= lb < 256,
                va >= 0,
                vb >= 0,
        ;
        lemma_be_value_injective(a.drop_last(), b.drop_last());
        assert(a =~= a.drop_last().push(a.last()));
        assert(b =~= b.drop_last().push(b.last()));
    }
}

/// Relies on `Felt::from(u64)`: the element whose value is `x`.
#[verifier::external_body]
fn felt_from_u64(x: u64) -> (r: BaseField)
    ensures
        r.val() == x as int,
{
    BaseField { bytes: Felt::from(x).to_bytes_be() }
}

/// Relies on `Felt::from_bytes_be` (reduces the number modulo the prime) and
/// `Felt::to_bytes_be` (the big-endian bytes of the value).
#[verifier::external_body]
fn felt_canonical(a: &BaseField) -> (r: [u8; 32])
    ensures
        be_value(r@) == a.val(),
{
    Felt::from_bytes_be(&a.bytes).to_bytes_be()
}

/// Relies on `Felt + Felt`: addition modulo the prime.
#[verifier::external_body]
fn felt_add(a: &BaseField, b: &BaseField) -> (r: BaseField)
    ensures
        r.val() == (a.val() + b.val()) % prime(),
{
    let s = Felt::from_bytes_be(&a.bytes) + Felt::from_bytes_be(&b.bytes);
    BaseField { bytes: s.to_bytes_be() }
}

/// Relies on `Felt - Felt`: subtraction modulo the prime.
#[verifier::external_body]
fn felt_sub(a: &BaseField, b: &BaseField) -> (r: BaseField)
    ensures
        r.val() == (a.val() - b.val()) % prime(),
{
    let d = Felt::from_bytes_be(&a.bytes) - Felt::from_bytes_be(&b.bytes);
    BaseField { bytes: d.to_bytes_be() }
}

/// Relies on `Felt * Felt`: multiplication modulo the prime.
#[verifier::external_body]
fn felt_mul(a: &BaseField, b: &BaseField) -> (r: BaseField)
    ensures
        r.val() == (a.val() * b.val()) % prime(),
{
    let p = Felt::from_bytes_be(&a.bytes) * Felt::from_bytes_be(&b.bytes);
    BaseField { bytes: p.to_bytes_be() }
}

/// Relies on `Felt < Felt`, which compares the values as integers.
#[verifier::external_body]
fn felt_lt(a: &BaseField, b: &BaseField) -> (r: bool)
    ensures
        r == (a.val() < b.val()),
{
    Felt::from_bytes_be(&a.bytes) < Felt::from_bytes_be(&b.bytes)
}

/// Relies on `Felt::sqrt`: `None` exactly for a non-residue, else the root
/// with the smaller value (zero for zero).
#[verifier::external_body]
fn felt_sqrt(a: &BaseField) -> (r: Option<BaseField>)
    ensures
        r matches Some(y) ==> y.val() == lower_root(a.val()) && is_lower_root(y.val(), a.val()),
        r is None <==> !is_square(a.val()),
{
    Felt::from_bytes_be(&a.bytes).sqrt().map(|y| BaseField { bytes: y.to_bytes_be() })
}

/// Relies on `Felt::mod_floor`: the remainder of the integer division.
#[verifier::external_body]
fn felt_mod_floor(a: &BaseField, n: &BaseField) -> (r: BaseField)
    requires
        n.val() != 0,
    ensures
        r.val() == a.val() % n.val(),
{
    let n = NonZeroFelt::from_felt_unchecked(Felt::from_bytes_be(&n.bytes));
    BaseField { bytes: Felt::from_bytes_be(&a.bytes).mod_floor(&n).to_bytes_be() }
}

/// Relies on `Felt::mul_mod`: the integer product reduced modulo `n`.
#[verifier::external_body]
fn felt_mul_mod(a: &BaseField, b: &BaseField, n: &BaseField) -> (r: BaseField)
    requires
        n.val() != 0,
    ensures
        r.val() == (a.val() * b.val()) % n.val(),
{
    let n = NonZeroFelt::from_felt_unchecked(Felt::from_bytes_be(&n.bytes));
    let p = Felt::from_bytes_be(&a.bytes).mul_mod(&Felt::from_bytes_be(&b.bytes), &n);
    BaseField { bytes: p.to_bytes_be() }
}

/// The greatest common divisor.
pub open spec fn gcd(a: nat, b: nat) -> nat
    decreases b,
{
    if b == 0 {
        a
    } else {
        gcd(b, a % b)
    }
}

/// Relies on `Felt::inverse`: `None` exactly for zero, else the inverse.
#[verifier::external_body]
fn felt_inverse(a: &BaseField) -> (r: Option<BaseField>)
    ensures
        r matches Some(i) ==> (i.val() * a.val()) % prime() == 1,
        r is None <==> a.val() == 0,
{
    Felt::from_bytes_be(&a.bytes).inverse().map(|i| BaseField { bytes: i.to_bytes_be() })
}

/// Relies on `Felt::mod_inverse`: `None` when the greatest common divisor
/// with `n` is not one, else the inverse modulo `n`.
#[verifier::external_body]
fn felt_mod_inverse(a: &BaseField, n: &BaseField) -> (r: Option<BaseField>)
    requires
        n.val() > 1,
    ensures
        r matches Some(i) ==> (i.val() * a.val()) % n.val() == 1,
        r is None <==> gcd(a.val() as nat, n.val() as nat) != 1,
{
    let n = NonZeroFelt::from_felt_unchecked(Felt::from_bytes_be(&n.bytes));
    Felt::from_bytes_be(&a.bytes).mod_inverse(&n).map(|i| BaseField { bytes: i.to_bytes_be() })
}

} // verus!
