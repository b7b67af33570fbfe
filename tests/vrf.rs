use stark_vrf_core::curve::Point;
use stark_vrf_core::ecvrf::{hash_to_curve, Proof, StarkVRF};
use stark_vrf_core::error::VrfError;
use stark_vrf_core::field::BaseField;
use stark_vrf_core::hash::poseidon_hash;
use stark_vrf_core::scalar::ScalarField;
use starknet_types_core::felt::Felt;

const PRIME_HEX: &str = "0x800000000000011000000000000000000000000000000000000000000000001";
const ORDER_HEX: &str = "0x0800000000000010ffffffffffffffffb781126dcae7b2321e66a241adc64d2f";

fn hex_bytes(h: &str) -> [u8; 32] {
    let digits = h.trim_start_matches("0x");
    let padded = format!("{:0>64}", digits);
    let mut out = [0u8; 32];
    for i in 0..32 {
        out[i] = u8::from_str_radix(&padded[2 * i..2 * i + 2], 16).unwrap();
    }
    out
}

fn fe(h: &str) -> BaseField {
    BaseField::from_bytes_be(hex_bytes(h)).unwrap()
}

fn same(a: &BaseField, b: &BaseField) -> bool {
    a.to_bytes_be() == b.to_bytes_be()
}

fn engine_for(sk: u64) -> (StarkVRF, ScalarField) {
    let secret = ScalarField::from_u64(sk);
    let pk = Point::generator().mul(&secret);
    (StarkVRF::new(pk).unwrap(), secret)
}

fn same_point(a: &Point, b: &Point) -> bool {
    a.infinity == b.infinity && (a.infinity || (same(&a.x, &b.x) && same(&a.y, &b.y)))
}

fn same_proof(a: &Proof, b: &Proof) -> bool {
    same_point(&a.gamma, &b.gamma) && a.c.eq(&b.c) && a.s.eq(&b.s)
}

#[test]
fn field_add_wraps_at_prime() {
    let p_minus_one = fe("0x800000000000011000000000000000000000000000000000000000000000000");
    let r = p_minus_one.add(&BaseField::from_u64(2));
    assert!(same(&r, &BaseField::from_u64(1)));
}

#[test]
fn field_sub_and_mul_exact_values() {
    let r = BaseField::from_u64(3).sub(&BaseField::from_u64(5));
    assert!(same(&r, &fe("0x800000000000010ffffffffffffffffffffffffffffffffffffffffffffffff")));
    let m = BaseField::from_u64(1 << 40).mul(&BaseField::from_u64(1 << 40));
    assert_eq!(m.to_bytes_be()[21], 1);
    assert!(same(&BaseField::from_u64(6).mul(&BaseField::from_u64(7)), &BaseField::from_u64(42)));
}

#[test]
fn bytes_at_or_above_prime_are_refused() {
    assert!(BaseField::from_bytes_be(hex_bytes(PRIME_HEX)).is_none());
    assert!(BaseField::from_bytes_be([0xff; 32]).is_none());
    let below = fe("0x800000000000011000000000000000000000000000000000000000000000000");
    assert_eq!(below.to_bytes_be(), hex_bytes("0x800000000000011000000000000000000000000000000000000000000000000"));
}

#[test]
fn sqrt_gives_lower_root_or_none() {
    let r = BaseField::from_u64(4).sqrt().unwrap();
    assert!(same(&r, &BaseField::from_u64(2)));
    assert!(BaseField::from_u64(3).sqrt().is_none());
    assert!(BaseField::zero().sqrt().unwrap().is_zero());
}

#[test]
fn group_order_element_matches_curve_order() {
    assert_eq!(BaseField::group_order_element().to_bytes_be(), hex_bytes(ORDER_HEX));
}

#[test]
fn scalar_add_and_mul_wrap_at_order() {
    let n_minus_one = ScalarField::from_base(&fe(ORDER_HEX).sub(&BaseField::from_u64(1))).unwrap();
    let r = n_minus_one.add(&ScalarField::from_u64(2));
    assert!(r.eq(&ScalarField::from_u64(1)));
    let sq = n_minus_one.mul(&n_minus_one);
    assert!(sq.eq(&ScalarField::from_u64(1)));
    assert!(ScalarField::from_u64(5).neg().add(&ScalarField::from_u64(5)).is_zero());
    assert!(ScalarField::from_base(&fe(ORDER_HEX)).is_none());
    let reduced = ScalarField::reduce(&fe(ORDER_HEX).add(&BaseField::from_u64(9)));
    assert!(reduced.eq(&ScalarField::from_u64(9)));
}

#[test]
fn poseidon_matches_known_vector() {
    let v = vec![fe("0xaa"), fe("0xbb"), fe("0xcc")];
    let h = poseidon_hash(&v);
    assert!(same(&h, &fe("0x2742e049f7e1613e4a014efeec0d742882a798ae0af8b8dd730358c23848775")));
    let expected = Felt::from_hex("0x2742e049f7e1613e4a014efeec0d742882a798ae0af8b8dd730358c23848775").unwrap();
    assert_eq!(h.to_bytes_be(), expected.to_bytes_be());
}

#[test]
fn generator_is_on_curve_and_points_add() {
    let g = Point::generator();
    assert!(g.is_on_curve());
    let two = ScalarField::from_u64(2);
    assert!(same_point(&g.add(&g), &g.mul(&two)));
    assert!(g.mul(&ScalarField::zero()).infinity);
    assert!(same_point(&g.add(&Point::identity()), &g));
    let minus_one = ScalarField::from_u64(1).neg();
    assert!(g.add(&g.mul(&minus_one)).infinity);
    let off = Point::new(g.x, g.x);
    assert!(!off.is_on_curve());
}

#[test]
fn scenario_secret_seven_input_forty_two() {
    let secret = ScalarField::from_u64(7);
    let pk = Point::generator().mul(&secret);
    let seven_g = (0..7).fold(Point::identity(), |acc, _| acc.add(&Point::generator()));
    assert!(same_point(&pk, &seven_g));
    let vrf = StarkVRF::new(pk).unwrap();
    let input = vec![BaseField::from_u64(42)];
    let proof = vrf.prove(&secret, &input).unwrap();
    assert!(proof.gamma.is_on_curve());
    assert!(!proof.gamma.infinity);
    let beta = vrf.proof_to_hash(&proof).unwrap();
    let again = vrf.prove(&secret, &input).unwrap();
    assert!(same(&vrf.proof_to_hash(&again).unwrap(), &beta));
    assert_eq!(vrf.verify(&input, &proof), Ok(true));
}

#[test]
fn prove_is_deterministic() {
    let (vrf, secret) = engine_for(123456789);
    let input = vec![BaseField::from_u64(1), BaseField::from_u64(2)];
    let a = vrf.prove(&secret, &input).unwrap();
    let b = vrf.prove(&secret, &input).unwrap();
    assert!(same_proof(&a, &b));
}

#[test]
fn round_trip_verifies_for_several_keys_and_inputs() {
    for sk in [1u64, 2, 99, u64::MAX] {
        let (vrf, secret) = engine_for(sk);
        for input in [vec![], vec![BaseField::from_u64(5)], vec![BaseField::from_u64(5), fe(ORDER_HEX)]] {
            let proof = vrf.prove(&secret, &input).unwrap();
            assert_eq!(vrf.verify(&input, &proof), Ok(true));
        }
    }
}

#[test]
fn perturbed_proofs_are_rejected() {
    let (vrf, secret) = engine_for(7);
    let input = vec![BaseField::from_u64(42)];
    let proof = vrf.prove(&secret, &input).unwrap();
    let one = ScalarField::from_u64(1);
    let bad_c = Proof { c: proof.c.add(&one), ..proof };
    assert_eq!(vrf.verify(&input, &bad_c), Ok(false));
    let bad_s = Proof { s: proof.s.add(&one), ..proof };
    assert_eq!(vrf.verify(&input, &bad_s), Ok(false));
    let bad_gamma = Proof { gamma: proof.gamma.add(&Point::generator()), ..proof };
    assert_eq!(vrf.verify(&input, &bad_gamma), Ok(false));
    let other_input = vec![BaseField::from_u64(43)];
    assert_eq!(vrf.verify(&other_input, &proof), Ok(false));
}

#[test]
fn malformed_gamma_is_an_error() {
    let (vrf, secret) = engine_for(7);
    let input = vec![BaseField::from_u64(42)];
    let proof = vrf.prove(&secret, &input).unwrap();
    let off = Proof { gamma: Point::new(proof.gamma.x, proof.gamma.x), ..proof };
    assert_eq!(vrf.verify(&input, &off), Err(VrfError::MalformedProofEncoding));
    assert_eq!(vrf.proof_to_hash(&off).err(), Some(VrfError::MalformedProofEncoding));
    let at_infinity = Proof { gamma: Point::identity(), ..proof };
    assert_eq!(vrf.proof_to_hash(&at_infinity).err(), Some(VrfError::MalformedProofEncoding));
}

#[test]
fn distinct_inputs_give_distinct_outputs() {
    let (vrf, secret) = engine_for(7);
    let mut betas: Vec<[u8; 32]> = Vec::new();
    for seed in 40u64..48 {
        let proof = vrf.prove(&secret, &vec![BaseField::from_u64(seed)]).unwrap();
        betas.push(vrf.proof_to_hash(&proof).unwrap().to_bytes_be());
    }
    for i in 0..betas.len() {
        for j in 0..i {
            assert_ne!(betas[i], betas[j]);
        }
    }
}

#[test]
fn hint_matches_point_used_in_prove() {
    let (vrf, secret) = engine_for(7);
    let input = vec![BaseField::from_u64(42)];
    let hint = vrf.hash_to_sqrt_ratio_hint(&input).unwrap();
    let h = hash_to_curve(&input).unwrap();
    assert!(same(&hint, &h.y));
    assert!(h.is_on_curve());
    let proof = vrf.prove(&secret, &input).unwrap();
    assert!(same_point(&proof.gamma, &h.mul(&secret)));
    let y_squared = hint.mul(&hint);
    let x = h.x;
    let rhs = x.mul(&x).mul(&x).add(&x).add(&fe("0x6F21413EFBE40DE150E596D72F7A8C5609AD26C15C915C1F4CDFCB99CEE9E89"));
    assert!(same(&y_squared, &rhs));
}

#[test]
fn zero_secret_key_is_refused() {
    let (vrf, _) = engine_for(7);
    let r = vrf.prove(&ScalarField::zero(), &vec![BaseField::from_u64(42)]);
    assert_eq!(r.err(), Some(VrfError::InvalidSecretKey));
}

#[test]
fn public_key_off_curve_is_refused() {
    let g = Point::generator();
    let off = Point::new(g.x, g.y.add(&BaseField::from_u64(1)));
    assert_eq!(StarkVRF::new(off).err(), Some(VrfError::InvalidPublicKey));
    assert_eq!(StarkVRF::new(Point::identity()).err(), Some(VrfError::InvalidPublicKey));
}

#[test]
fn field_inverse_and_negation() {
    let two = BaseField::from_u64(2);
    let inv = two.inverse().unwrap();
    assert!(same(&inv.mul(&two), &BaseField::from_u64(1)));
    assert!(same(&inv, &fe("0x400000000000008800000000000000000000000000000000000000000000001")));
    assert!(BaseField::zero().inverse().is_none());
    assert!(BaseField::from_u64(5).neg().add(&BaseField::from_u64(5)).is_zero());
    assert!(same(&BaseField::from_u64(1).neg(), &fe("0x800000000000011000000000000000000000000000000000000000000000000")));
    assert!(BaseField::zero().neg().is_zero());
}

#[test]
fn scalar_inverse() {
    let three = ScalarField::from_u64(3);
    let inv = three.inverse().unwrap();
    assert!(inv.mul(&three).eq(&ScalarField::from_u64(1)));
    assert!(!inv.eq(&three));
    assert!(ScalarField::zero().inverse().is_none());
}
