//! The verifiable random function: proofs, their verification, the
//! square-root hint for the hashed point, and the output of a proof.
use crate::curve::{curve_rhs, curve_rhs_of, ec_add, ec_generator, ec_mul, on_curve, EcPoint, Point};
use crate::error::VrfError;
use crate::field::{group_order, is_square, lemma_lower_root, lower_root, square_mod, BaseField};
use crate::hash::{poseidon_hash, poseidon_of, values};
use crate::scalar::ScalarField;
use vstd::prelude::*;

verus! {

/// How many counters the hash into the curve tries before it gives up.
pub const MAX_ATTEMPTS: u64 = 256;

/// Domain tag of the hash into the curve.
pub const TAG_HASH_TO_CURVE: u64 = 0x6832_6375_7276_65;

/// Domain tag of the nonce.
pub const TAG_NONCE: u64 = 0x6e6f_6e63_65;

/// Domain tag of the challenge.
pub const TAG_CHALLENGE: u64 = 0x6368_616c_6c65_6e67;

/// Domain tag of the output.
pub const TAG_OUTPUT: u64 = 0x6f75_7470_7574;

/// The field values hashed for the candidate `x` at counter `ctr`.
pub open spec fn candidate_preimage(input: Seq<int>, ctr: nat) -> Seq<int> {
    seq![TAG_HASH_TO_CURVE as int] + input + seq![ctr as int]
}

/// The candidate `x` coordinate at counter `ctr`.
pub open spec fn candidate_x(input: Seq<int>, ctr: nat) -> int {
    poseidon_of(candidate_preimage(input, ctr))
}

/// The first counter from `ctr` on, below the bound, whose candidate `x`
/// lies on the curve.
pub open spec fn first_on_curve(input: Seq<int>, ctr: nat) -> Option<nat>
    decreases MAX_ATTEMPTS - ctr,
{
    if ctr >= MAX_ATTEMPTS {
        None
    } else if is_square(curve_rhs(candidate_x(input, ctr))) {
        Some(ctr)
    } else {
        first_on_curve(input, ctr + 1)
    }
}

/// The point that an input hashes to: the first candidate `x` on the curve,
/// with the smaller of its two `y`.
pub open spec fn hash_to_curve_spec(input: Seq<int>) -> Option<EcPoint> {
    match first_on_curve(input, 0) {
        Some(ctr) => {
            let x = candidate_x(input, ctr);
            Some(EcPoint { inf: false, x, y: lower_root(curve_rhs(x)) })
        },
        None => None,
    }
}

/// The hint for an input: the square root of the curve equation's
/// right-hand side at the hashed point's `x`, which is that point's `y`.
pub open spec fn hint_spec(input: Seq<int>) -> Option<int> {
    match hash_to_curve_spec(input) {
        Some(h) => Some(h.y),
        None => None,
    }
}

/// The coordinates of a point as hashed.
pub open spec fn coords(p: EcPoint) -> Seq<int> {
    seq![p.x, p.y]
}

/// The nonce for a secret key and a hashed point.
pub open spec fn nonce_spec(sk: int, h: EcPoint) -> int {
    poseidon_of(seq![TAG_NONCE as int, sk] + coords(h)) % group_order()
}

/// The challenge over the public key, the hashed point, gamma and the two
/// commitments.
pub open spec fn challenge_spec(pk: EcPoint, h: EcPoint, gamma: EcPoint, u: EcPoint, v: EcPoint) -> int {
    poseidon_of(
        seq![TAG_CHALLENGE as int] + coords(pk) + coords(h) + coords(gamma) + coords(u) + coords(v),
    ) % group_order()
}

/// A proof as mathematics sees it.
pub struct ProofModel {
    pub gamma: EcPoint,
    pub c: int,
    pub s: int,
}

/// What `prove` gives for a public key, a secret key and an input.
pub open spec fn prove_spec(pk: EcPoint, sk: int, input: Seq<int>) -> Result<ProofModel, VrfError> {
    if sk == 0 {
        Err(VrfError::InvalidSecretKey)
    } else {
        match hash_to_curve_spec(input) {
            None => Err(VrfError::ProofGenerationError),
            Some(h) => {
                let gamma = ec_mul(sk as nat, h);
                let k = nonce_spec(sk, h);
                let u = ec_mul(k as nat, ec_generator());
                let v = ec_mul(k as nat, h);
                let c = challenge_spec(pk, h, gamma, u, v);
                Ok(ProofModel { gamma, c, s: (k + c * sk) % group_order() })
            },
        }
    }
}

/// Whether a proof's point is well formed: on the curve and not at infinity.
pub open spec fn gamma_ok(gamma: EcPoint) -> bool {
    on_curve(gamma) && !gamma.inf
}

/// What `verify` gives for a public key, an input and a proof.
pub open spec fn verify_spec(pk: EcPoint, input: Seq<int>, proof: ProofModel) -> Result<bool, VrfError> {
    if !gamma_ok(proof.gamma) {
        Err(VrfError::MalformedProofEncoding)
    } else {
        match hash_to_curve_spec(input) {
            None => Err(VrfError::ProofGenerationError),
            Some(h) => {
                let minus_c = ((group_order() - proof.c) % group_order()) as nat;
                let u = ec_add(ec_mul(proof.s as nat, ec_generator()), ec_mul(minus_c, pk));
                let v = ec_add(ec_mul(proof.s as nat, h), ec_mul(minus_c, proof.gamma));
                Ok(challenge_spec(pk, h, proof.gamma, u, v) == proof.c)
            },
        }
    }
}

/// What `proof_to_hash` gives for a proof.
pub open spec fn proof_to_hash_spec(proof: ProofModel) -> Result<int, VrfError> {
    if !gamma_ok(proof.gamma) {
        Err(VrfError::MalformedProofEncoding)
    } else {
        Ok(poseidon_of(seq![TAG_OUTPUT as int] + coords(proof.gamma)))
    }
}

/// A proof: the point gamma and the challenge and response `(c, s)`.
#[derive(Clone, Copy, Debug)]
pub struct Proof {
    pub gamma: Point,
    pub c: ScalarField,
    pub s: ScalarField,
}

impl View for Proof {
    type V = ProofModel;

    open spec fn view(&self) -> ProofModel {
        ProofModel { gamma: self.gamma@, c: self.c.val(), s: self.s.val() }
    }
}

/// The model of what `prove` returns.
pub open spec fn proof_result_view(r: Result<Proof, VrfError>) -> Result<ProofModel, VrfError> {
    match r {
        Ok(p) => Ok(p@),
        Err(e) => Err(e),
    }
}

/// The model of a result that holds a base-field element.
pub open spec fn field_result_view(r: Result<BaseField, VrfError>) -> Result<int, VrfError> {
    match r {
        Ok(e) => Ok(e.val()),
        Err(e) => Err(e),
    }
}

/// The elements `[tag] ++ input ++ [last]`.
fn framed(tag: u64, input: &Vec<BaseField>, last: &BaseField) -> (r: Vec<BaseField>)
    ensures
        values(r@) == seq![tag as int] + values(input@) + seq![last.val()],
{
    let mut r: Vec<BaseField> = Vec::new();
    r.push(BaseField::from_u64(tag));
    let mut i: usize = 0;
    while i < input.len()
        invariant
            i <= input.len(),
            values(r@) == seq![tag as int] + values(input@.subrange(0, i as int)),
        decreases input.len() - i,
    {
        let ghost before = r@;
        r.push(input[i]);
        proof {
            assert(input@.subrange(0, i + 1) =~= input@.subrange(0, i as int).push(input@[i as int]));
            assert(values(r@) =~= values(before).push(input@[i as int].val()));
            assert(values(input@.subrange(0, i + 1)) =~= values(input@.subrange(0, i as int)).push(
                input@[i as int].val(),
            ));
            assert(values(r@) =~= seq![tag as int] + values(input@.subrange(0, i + 1)));
        }
        i = i + 1;
    }
    let ghost before = r@;
    r.push(*last);
    proof {
        assert(values(r@) =~= values(before).push(last.val()));
        assert(input@.subrange(0, input@.len() as int) =~= input@);
        assert(values(r@) =~= seq![tag as int] + values(input@) + seq![last.val()]);
    }
    r
}

/// Each counter from `from` below `to` has its candidate off the curve, so
/// the search from `from` is the search from `to`.
proof fn lemma_skip(input: Seq<int>, from: nat, to: nat)
    requires
        from <= to <= MAX_ATTEMPTS,
        forall|j: nat| from <= j < to ==> !is_square(#[trigger] curve_rhs(candidate_x(input, j))),
    ensures
        first_on_curve(input, from) == first_on_curve(input, to),
    decreases to - from,
{
    if from < to {
        lemma_skip(input, from + 1, to);
    }
}

/// The point that an input hashes to, by counters tried in turn.
pub fn hash_to_curve(input: &Vec<BaseField>) -> (r: Result<Point, VrfError>)
    ensures
        match hash_to_curve_spec(values(input@)) {
            Some(h) => r matches Ok(p) && p@ == h,
            None => r == Err::<Point, VrfError>(VrfError::ProofGenerationError),
        },
        r matches Ok(p) ==> on_curve(p@) && !p@.inf,
{
    let ghost vin = values(input@);
    let mut ctr: u64 = 0;
    while ctr < MAX_ATTEMPTS
        invariant
            ctr <= MAX_ATTEMPTS,
            vin == values(input@),
            forall|j: nat| j < ctr ==> !is_square(#[trigger] curve_rhs(candidate_x(vin, j))),
        decreases MAX_ATTEMPTS - ctr,
    {
        let preimage = framed(TAG_HASH_TO_CURVE, input, &BaseField::from_u64(ctr));
        let x = poseidon_hash(&preimage);
        assert(values(preimage@) == candidate_preimage(vin, ctr as nat));
        let rhs = curve_rhs_of(&x);
        match rhs.sqrt() {
            Some(y) => {
                proof {
                    lemma_skip(vin, 0, ctr as nat);
                }
                return Ok(Point::new(x, y));
            },
            None => {},
        }
        ctr = ctr + 1;
    }
    proof {
        lemma_skip(vin, 0, MAX_ATTEMPTS as nat);
    }
    Err(VrfError::ProofGenerationError)
}

/// A verifiable random function under one public key.
#[derive(Clone, Copy, Debug)]
pub struct StarkVRF {
    public_key: Point,
}

impl StarkVRF {
    #[verifier::type_invariant]
    spec fn key_ok(&self) -> bool {
        gamma_ok(self.public_key@)
    }

    /// The public key.
    pub closed spec fn public_key_view(&self) -> EcPoint {
        self.public_key@
    }

    /// The function under `public_key`, which must be on the curve and not
    /// at infinity.
    pub fn new(public_key: Point) -> (r: Result<StarkVRF, VrfError>)
        ensures
            r matches Ok(e) ==> e.public_key_view() == public_key@,
            r is Err <==> !gamma_ok(public_key@),
            r matches Err(e) ==> e == VrfError::InvalidPublicKey,
    {
        if public_key.infinity || !public_key.is_on_curve() {
            Err(VrfError::InvalidPublicKey)
        } else {
            Ok(StarkVRF { public_key })
        }
    }

    /// The public key.
    pub fn public_key(&self) -> (r: Point)
        ensures
            r@ == self.public_key_view(),
    {
        self.public_key
    }

    /// The proof for `input` under `secret_key`.
    pub fn prove(&self, secret_key: &ScalarField, input: &Vec<BaseField>) -> (r: Result<Proof, VrfError>)
        ensures
            proof_result_view(r) == prove_spec(self.public_key_view(), secret_key.val(), values(input@)),
    {
        proof {
            use_type_invariant(self);
        }
        if secret_key.is_zero() {
            return Err(VrfError::InvalidSecretKey);
        }
        let h = match hash_to_curve(input) {
            Ok(h) => h,
            Err(e) => return Err(e),
        };
        let gamma = h.mul(secret_key);
        let (hx, hy) = h.coordinates();
        let mut nonce_in: Vec<BaseField> = Vec::new();
        nonce_in.push(BaseField::from_u64(TAG_NONCE));
        nonce_in.push(secret_key.to_base());
        nonce_in.push(hx);
        nonce_in.push(hy);
        let k = ScalarField::reduce(&poseidon_hash(&nonce_in));
        assert(values(nonce_in@) =~= seq![TAG_NONCE as int, secret_key.val()] + coords(h@));
        let g = Point::generator();
        let u = g.mul(&k);
        let v = h.mul(&k);
        let c = challenge(&self.public_key, &h, &gamma, &u, &v);
        let s = k.add(&c.mul(secret_key));
        proof {
            let n = group_order();
            let (kv, cv, skv) = (k.val(), c.val(), secret_key.val());
            vstd::arithmetic::div_mod::lemma_add_mod_noop(kv, cv * skv, n);
            vstd::arithmetic::div_mod::lemma_mod_twice(cv * skv, n);
            vstd::arithmetic::div_mod::lemma_mod_twice(poseidon_of(values(nonce_in@)), n);
            vstd::arithmetic::div_mod::lemma_mod_twice(kv, n);
        }
        Ok(Proof { gamma, c, s })
    }

    /// Whether `proof` is a proof for `input` under the public key.
    pub fn verify(&self, input: &Vec<BaseField>, proof: &Proof) -> (r: Result<bool, VrfError>)
        ensures
            r == verify_spec(self.public_key_view(), values(input@), proof@),
    {
        proof {
            use_type_invariant(self);
        }
        if proof.gamma.infinity || !proof.gamma.is_on_curve() {
            return Err(VrfError::MalformedProofEncoding);
        }
        let h = match hash_to_curve(input) {
            Ok(h) => h,
            Err(e) => return Err(e),
        };
        let minus_c = proof.c.neg();
        let g = Point::generator();
        let u = g.mul(&proof.s).add(&self.public_key.mul(&minus_c));
        let v = h.mul(&proof.s).add(&proof.gamma.mul(&minus_c));
        let c = challenge(&self.public_key, &h, &proof.gamma, &u, &v);
        Ok(c.eq(&proof.c))
    }

    /// The hint for `input`: the `y` coordinate of the point it hashes to.
    pub fn hash_to_sqrt_ratio_hint(&self, input: &Vec<BaseField>) -> (r: Result<BaseField, VrfError>)
        ensures
            match hint_spec(values(input@)) {
                Some(y) => r matches Ok(e) && e.val() == y,
                None => r == Err::<BaseField, VrfError>(VrfError::ProofGenerationError),
            },
    {
        match hash_to_curve(input) {
            Ok(h) => Ok(h.y),
            Err(e) => Err(e),
        }
    }

    /// The output `beta` of a proof.
    pub fn proof_to_hash(&self, proof: &Proof) -> (r: Result<BaseField, VrfError>)
        ensures
            field_result_view(r) == proof_to_hash_spec(proof@),
    {
        if proof.gamma.infinity || !proof.gamma.is_on_curve() {
            return Err(VrfError::MalformedProofEncoding);
        }
        let (gx, gy) = proof.gamma.coordinates();
        let mut out_in: Vec<BaseField> = Vec::new();
        out_in.push(BaseField::from_u64(TAG_OUTPUT));
        out_in.push(gx);
        out_in.push(gy);
        let beta = poseidon_hash(&out_in);
        assert(values(out_in@) =~= seq![TAG_OUTPUT as int] + coords(proof.gamma@));
        Ok(beta)
    }
}

/// Proving is deterministic: two results of `prove` under one public key,
/// for one secret key and one input, are the same proof or the same error.
pub proof fn lemma_prove_deterministic(
    vrf: StarkVRF,
    secret_key: ScalarField,
    input: Seq<BaseField>,
    first: Result<Proof, VrfError>,
    second: Result<Proof, VrfError>,
)
    requires
        proof_result_view(first) == prove_spec(vrf.public_key_view(), secret_key.val(), values(input)),
        proof_result_view(second) == prove_spec(vrf.public_key_view(), secret_key.val(), values(input)),
    ensures
        proof_result_view(first) == proof_result_view(second),
{
}

/// A counter that the search returns has its candidate on the curve.
proof fn lemma_found_is_square(input: Seq<int>, from: nat)
    ensures
        first_on_curve(input, from) matches Some(ctr) ==> is_square(
            curve_rhs(candidate_x(input, ctr)),
        ),
    decreases MAX_ATTEMPTS - from,
{
    if from < MAX_ATTEMPTS {
        lemma_found_is_square(input, from + 1);
    }
}

/// The hint certifies the hashed point: its square is the right-hand side of
/// the curve equation at the point's `x`, so the point lies on the curve.
pub proof fn lemma_hint_certifies_point(input: Seq<int>)
    ensures
        hash_to_curve_spec(input) matches Some(h) ==> {
            &&& hint_spec(input) == Some(h.y)
            &&& square_mod(h.y) == curve_rhs(h.x)
            &&& on_curve(h)
        },
{
    lemma_found_is_square(input, 0);
    if let Some(ctr) = first_on_curve(input, 0) {
        lemma_lower_root(curve_rhs(candidate_x(input, ctr)));
    }
}

/// The hint that a verifier recomputes from the input alone is the `y`
/// coordinate of the point from which `prove` derived gamma: whenever `prove`
/// succeeds, the hint exists, and gamma is that point times the secret key.
pub proof fn lemma_hint_consistent(pk: EcPoint, sk: int, input: Seq<int>)
    ensures
        prove_spec(pk, sk, input) is Ok ==> {
            &&& hash_to_curve_spec(input) is Some
            &&& hint_spec(input) == Some(hash_to_curve_spec(input)->Some_0.y)
            &&& prove_spec(pk, sk, input)->Ok_0.gamma == ec_mul(
                sk as nat,
                hash_to_curve_spec(input)->Some_0,
            )
        },
{
}

/// The challenge over the public key, the hashed point, gamma and the two
/// commitments.
fn challenge(pk: &Point, h: &Point, gamma: &Point, u: &Point, v: &Point) -> (r: ScalarField)
    ensures
        r.val() == challenge_spec(pk@, h@, gamma@, u@, v@),
{
    let mut e: Vec<BaseField> = Vec::new();
    e.push(BaseField::from_u64(TAG_CHALLENGE));
    let (a, b) = pk.coordinates();
    e.push(a);
    e.push(b);
    let (a, b) = h.coordinates();
    e.push(a);
    e.push(b);
    let (a, b) = gamma.coordinates();
    e.push(a);
    e.push(b);
    let (a, b) = u.coordinates();
    e.push(a);
    e.push(b);
    let (a, b) = v.coordinates();
    e.push(a);
    e.push(b);
    assert(values(e@) =~= seq![TAG_CHALLENGE as int] + coords(pk@) + coords(h@) + coords(gamma@)
        + coords(u@) + coords(v@));
    ScalarField::reduce(&poseidon_hash(&e))
}

} // verus!
