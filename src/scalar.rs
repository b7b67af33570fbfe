//! Elements of the scalar field: integers modulo the curve's group order.
use crate::field::{gcd, group_order, prime, BaseField};
use vstd::arithmetic::div_mod::{lemma_mod_bound, lemma_mul_mod_noop_left, lemma_small_mod};
use vstd::prelude::*;

verus! {

/// An element of the scalar field, held as a base-field element whose value
/// lies below the group order.
#[derive(Clone, Copy, Debug)]
pub struct ScalarField {
    inner: BaseField,
}

impl ScalarField {
    #[verifier::type_invariant]
    spec fn in_range(&self) -> bool {
        self.inner.val() < group_order()
    }

    /// The value of the element, in `0 .. group_order()`.
    pub closed spec fn val(&self) -> int {
        self.inner.val()
    }

    /// The element whose value is `x`.
    pub fn from_u64(x: u64) -> (r: ScalarField)
        ensures
            r.val() == x as int,
    {
        ScalarField { inner: BaseField::from_u64(x) }
    }

    /// The zero element.
    pub fn zero() -> (r: ScalarField)
        ensures
            r.val() == 0,
    {
        ScalarField::from_u64(0)
    }

    /// The base-field element reduced modulo the group order.
    pub fn reduce(e: &BaseField) -> (r: ScalarField)
        ensures
            r.val() == e.val() % group_order(),
    {
        let n = BaseField::group_order_element();
        ScalarField { inner: e.rem(&n) }
    }

    /// The element that a base-field element stands for, when its value lies
    /// below the group order.
    pub fn from_base(e: &BaseField) -> (r: Option<ScalarField>)
        ensures
            r matches Some(s) ==> s.val() == e.val(),
            r is None <==> e.val() >= group_order(),
    {
        let n = BaseField::group_order_element();
        if e.lt(&n) {
            Some(ScalarField { inner: *e })
        } else {
            None
        }
    }

    /// The same value as a base-field element.
    pub fn to_base(&self) -> (r: BaseField)
        ensures
            r.val() == self.val(),
    {
        self.inner
    }

    /// Whether the value is zero.
    pub fn is_zero(&self) -> (r: bool)
        ensures
            r == (self.val() == 0),
    {
        self.inner.is_zero()
    }

    /// Whether the values are equal.
    pub fn eq(&self, o: &ScalarField) -> (r: bool)
        ensures
            r == (self.val() == o.val()),
    {
        self.inner.eq(&o.inner)
    }

    /// Sum modulo the group order.
    pub fn add(&self, o: &ScalarField) -> (r: ScalarField)
        ensures
            r.val() == (self.val() + o.val()) % group_order(),
    {
        proof {
            use_type_invariant(self);
            use_type_invariant(o);
            self.inner.lemma_range();
            o.inner.lemma_range();
        }
        let n = BaseField::group_order_element();
        let room = n.sub(&o.inner);
        proof {
            lemma_small_mod((group_order() - o.val()) as nat, prime() as nat);
        }
        if self.inner.lt(&room) {
            let r = self.inner.add(&o.inner);
            proof {
                lemma_small_mod((self.val() + o.val()) as nat, prime() as nat);
                lemma_small_mod((self.val() + o.val()) as nat, group_order() as nat);
            }
            ScalarField { inner: r }
        } else {
            let r = self.inner.sub(&room);
            proof {
                let v = self.val() + o.val() - group_order();
                lemma_small_mod(v as nat, prime() as nat);
                lemma_small_mod(v as nat, group_order() as nat);
                assert((v + group_order()) % group_order() == v % group_order()) by {
                    vstd::arithmetic::div_mod::lemma_mod_add_multiples_vanish(v, group_order());
                }
            }
            ScalarField { inner: r }
        }
    }

    /// Product modulo the group order.
    pub fn mul(&self, o: &ScalarField) -> (r: ScalarField)
        ensures
            r.val() == (self.val() * o.val()) % group_order(),
    {
        let n = BaseField::group_order_element();
        let r = self.inner.mul_rem(&o.inner, &n);
        proof {
            lemma_mod_bound(self.val() * o.val(), group_order());
        }
        ScalarField { inner: r }
    }

    /// The multiplicative inverse modulo the group order, or `None` when the
    /// value shares a factor with it (zero does).
    pub fn inverse(&self) -> (r: Option<ScalarField>)
        ensures
            r matches Some(i) ==> (i.val() * self.val()) % group_order() == 1,
            r is None <==> gcd(self.val() as nat, group_order() as nat) != 1,
    {
        let n = BaseField::group_order_element();
        match self.inner.inverse_rem(&n) {
            Some(i) => {
                let r = i.rem(&n);
                proof {
                    lemma_mul_mod_noop_left(i.val(), self.val(), group_order());
                }
                Some(ScalarField { inner: r })
            },
            None => None,
        }
    }

    /// Negation modulo the group order.
    pub fn neg(&self) -> (r: ScalarField)
        ensures
            r.val() == (group_order() - self.val()) % group_order(),
    {
        proof {
            use_type_invariant(self);
            self.inner.lemma_range();
        }
        if self.inner.is_zero() {
            proof {
                vstd::arithmetic::div_mod::lemma_mod_self_0(group_order());
            }
            ScalarField::zero()
        } else {
            let n = BaseField::group_order_element();
            let r = n.sub(&self.inner);
            proof {
                lemma_small_mod((group_order() - self.val()) as nat, prime() as nat);
                lemma_small_mod((group_order() - self.val()) as nat, group_order() as nat);
            }
            ScalarField { inner: r }
        }
    }
}

} // verus!
