use std::time::Instant;
use vdf::bigint::BigNat;
use vdf::keccak256::Keccak256;
use vdf::utilities::{get_trusted_rsa_modules, h_g, hash_to_prime, ErrorReason};
use vdf::{SerializedVDFParameter, SerializedVDFProof, SetupForVDF, SolvedVDF, UnsolvedVDF};

fn seed(byte: u8) -> BigNat {
    Keccak256::create_hash_from_slice(&[byte; 32])
}

fn challenge(t: u64, byte: u8) -> UnsolvedVDF {
    UnsolvedVDF {
        x: seed(byte),
        setup: SetupForVDF::public_setup(&BigNat::from_u64(t)),
    }
}

#[test]
fn test_vdf_valid_proof() {
    let t = BigNat::from_u64(13);
    let setup = SetupForVDF::public_setup(&t);

    let mut i = 0;
    while i < 10 {
        let seed_hash = Keccak256::create_hash_from_slice(&[i; 32]);
        println!("input at {}, {}", i, hex::encode(&seed_hash.to_bytes()));
        let unsolved_vdf = UnsolvedVDF {
            x: seed_hash,
            setup: setup.clone(),
        };
        let start = Instant::now();
        let solved_vdf = UnsolvedVDF::eval(&unsolved_vdf).unwrap();
        let duration1 = start.elapsed();
        println!("answer at {}, {}", i, hex::encode(&solved_vdf.y.to_bytes()));
        let start = Instant::now();
        // here unsolved_vdf is the version that was kept by the challenger
        let res = solved_vdf.verify(&unsolved_vdf);
        let duration2 = start.elapsed();
        i = i + 1;

        println!("eval time: {:?}", duration1);
        println!("verify time: {:?}", duration2);

        assert!(res.is_ok());
    }
}

#[test]
fn test_serialized_vdf_valid_proof() {
    let t = 13;
    let mut i = 0;
    while i < 10 {
        let seed_hash = Keccak256::create_hash_from_slice(&[i; 32]);
        println!("input at {}, {}", i, hex::encode(&seed_hash.to_bytes()));

        let serialized_proof = SerializedVDFProof::compute(t, &seed_hash.to_bytes())
            .expect("Fail to compute vdf proof.");
        let serialized_param = SerializedVDFParameter {
            x: seed_hash.to_bytes(),
            t,
        };
        assert_eq!(serialized_proof.verify_with_parameter(&serialized_param), Ok(()));
        i = i + 1;
    }
}

#[test]
fn zero_seed_proof_verifies_and_lies_in_the_group() {
    let x = Keccak256::create_hash_from_slice(&[0u8; 32]).to_bytes();
    let proof = SerializedVDFProof::compute(13, &x).unwrap();
    let parameter = SerializedVDFParameter { x, t: 13 };
    assert_eq!(proof.verify_with_parameter(&parameter), Ok(()));
    let n = get_trusted_rsa_modules();
    assert!(BigNat::from_bytes(&proof.y).less_than(&n));
    assert!(BigNat::from_bytes(&proof.pi).less_than(&n));
    assert!(BigNat::from_bytes(&proof.q).less_than(&n));
}

#[test]
fn output_is_the_repeated_square() {
    let unsolved = challenge(13, 3);
    let solved = UnsolvedVDF::eval(&unsolved).unwrap();
    let n = get_trusted_rsa_modules();
    let g = h_g(&n, &unsolved.x);
    // 2^13 = 8192
    let expected = BigNat::mod_pow(&g, &BigNat::from_u64(8192), &n);
    assert_eq!(solved.y, expected);
}

#[test]
fn witness_and_quotient_follow_the_long_division() {
    let unsolved = challenge(13, 4);
    let solved = UnsolvedVDF::eval(&unsolved).unwrap();
    let n = get_trusted_rsa_modules();
    let g = h_g(&n, &unsolved.x);
    let (l, nonce) = hash_to_prime(&g, &solved.y).unwrap();
    assert_eq!(solved.nonce, nonce);
    let power = BigNat::from_u64(8192);
    let exponent = power.div_floor(&l);
    assert_eq!(solved.pi, BigNat::mod_pow(&g, &exponent, &n));
    // the relation of the verifier, computed by hand
    let r = power.mod_floor(&l);
    let left = BigNat::mod_mul(
        &BigNat::mod_pow(&solved.pi, &l, &n),
        &BigNat::mod_pow(&g, &r, &n),
        &n,
    );
    assert_eq!(left, solved.y);
    // the doubled remainder of the last step is 2 * (2^12 mod l)
    let r2 = BigNat::from_u64(4096).mod_floor(&l).mul(&BigNat::from_u64(2));
    let u1 = BigNat::mod_pow(&solved.pi, &l, &n);
    let u2 = BigNat::mod_pow(&g, &r2, &n);
    assert_eq!(solved.q, u1.mul(&u2).div_floor(&n));
}

#[test]
fn no_squaring_gives_the_group_element_and_witness_one() {
    let unsolved = challenge(0, 7);
    let solved = UnsolvedVDF::eval(&unsolved).unwrap();
    let n = get_trusted_rsa_modules();
    let g = h_g(&n, &unsolved.x);
    assert_eq!(solved.y, g);
    assert_eq!(solved.pi, BigNat::one());
    assert_eq!(solved.q, BigNat::zero());
    assert_eq!(solved.verify(&unsolved), Ok(()));
    let (l, _) = hash_to_prime(&g, &solved.y).unwrap();
    // r = 2^0 mod l = 1
    assert_eq!(BigNat::mod_pow(&BigNat::from_u64(2), &BigNat::zero(), &l), BigNat::one());
}

#[test]
fn one_squaring() {
    let unsolved = challenge(1, 9);
    let solved = UnsolvedVDF::eval(&unsolved).unwrap();
    let n = get_trusted_rsa_modules();
    let g = h_g(&n, &unsolved.x);
    assert_eq!(solved.y, BigNat::mod_mul(&g, &g, &n));
    // 2 / l = 0 for every prime above two, and the witness is g^0
    assert_eq!(solved.pi, BigNat::one());
    assert_eq!(solved.verify(&unsolved), Ok(()));
}

#[test]
fn mismatched_challenge_is_refused() {
    let a = challenge(13, 1);
    let b = challenge(13, 2);
    let solved = UnsolvedVDF::eval(&a).unwrap();
    assert_eq!(solved.verify(&b), Err(ErrorReason::MisMatchedVDF));
    let other_delay = challenge(14, 1);
    assert_eq!(solved.verify(&other_delay), Err(ErrorReason::MisMatchedVDF));
    let mut other_modulus = challenge(13, 1);
    other_modulus.setup.N = BigNat::from_u64(35);
    assert_eq!(solved.verify(&other_modulus), Err(ErrorReason::MisMatchedVDF));
    assert_eq!(solved.verify(&a), Ok(()));
}

#[test]
fn tampered_output_is_refused() {
    let x = seed(5).to_bytes();
    let mut proof = SerializedVDFProof::compute(13, &x).unwrap();
    let parameter = SerializedVDFParameter { x, t: 13 };
    proof.y[0] ^= 0x01;
    assert_eq!(proof.verify_with_parameter(&parameter), Err(ErrorReason::VDFVerifyError));
}

#[test]
fn oversized_output_is_refused() {
    let x = seed(5).to_bytes();
    let mut proof = SerializedVDFProof::compute(13, &x).unwrap();
    let parameter = SerializedVDFParameter { x, t: 13 };
    proof.y = [0xff; 256];
    assert_eq!(proof.verify_with_parameter(&parameter), Err(ErrorReason::VDFVerifyError));
}

#[test]
fn oversized_witness_is_refused() {
    let x = seed(5).to_bytes();
    let mut proof = SerializedVDFProof::compute(13, &x).unwrap();
    let parameter = SerializedVDFParameter { x, t: 13 };
    proof.pi = [0xff; 256];
    assert_eq!(proof.verify_with_parameter(&parameter), Err(ErrorReason::VDFVerifyError));
}

#[test]
fn output_equal_to_the_modulus_is_refused() {
    let x = seed(5).to_bytes();
    let mut proof = SerializedVDFProof::compute(13, &x).unwrap();
    let parameter = SerializedVDFParameter { x, t: 13 };
    let n = get_trusted_rsa_modules().to_bytes();
    assert_eq!(n.len(), 256);
    proof.y.copy_from_slice(&n);
    assert_eq!(proof.verify_with_parameter(&parameter), Err(ErrorReason::VDFVerifyError));
}

#[test]
fn flipped_bit_in_output_or_witness_is_detected() {
    let x = seed(6).to_bytes();
    let proof = SerializedVDFProof::compute(13, &x).unwrap();
    let parameter = SerializedVDFParameter { x, t: 13 };
    let bytes = proof.to_bytes();
    for offset in 0..512 {
        let mut flipped = bytes.clone();
        flipped[offset] ^= 0x01;
        let tampered = SerializedVDFProof::from_bytes(&flipped);
        assert_eq!(
            tampered.verify_with_parameter(&parameter),
            Err(ErrorReason::VDFVerifyError),
            "offset {}",
            offset
        );
    }
}

#[test]
fn flipped_bit_in_quotient_or_nonce_is_not_looked_at() {
    let x = seed(6).to_bytes();
    let proof = SerializedVDFProof::compute(13, &x).unwrap();
    let parameter = SerializedVDFParameter { x, t: 13 };
    let bytes = proof.to_bytes();
    for offset in 512..772 {
        let mut flipped = bytes.clone();
        flipped[offset] ^= 0x01;
        let tampered = SerializedVDFProof::from_bytes(&flipped);
        assert_ne!(tampered, proof);
        assert_eq!(tampered.verify_with_parameter(&parameter), Ok(()), "offset {}", offset);
    }
}

#[test]
fn wrong_delay_is_refused() {
    let x = seed(8).to_bytes();
    let proof = SerializedVDFProof::compute(13, &x).unwrap();
    let parameter = SerializedVDFParameter { x, t: 12 };
    assert_eq!(proof.verify_with_parameter(&parameter), Err(ErrorReason::VDFVerifyError));
}

#[test]
fn compute_is_deterministic() {
    let x = seed(11).to_bytes();
    let first = SerializedVDFProof::compute(13, &x).unwrap();
    let second = SerializedVDFProof::compute(13, &x).unwrap();
    assert_eq!(first, second);
    assert_eq!(first.to_bytes(), second.to_bytes());
}

#[test]
fn compute_refuses_a_seed_of_the_wrong_length() {
    assert_eq!(SerializedVDFProof::compute(13, &[1u8; 31]), Err(ErrorReason::InvalidInput));
    assert_eq!(SerializedVDFProof::compute(13, &[1u8; 33]), Err(ErrorReason::InvalidInput));
    assert_eq!(SerializedVDFProof::compute(13, &[]), Err(ErrorReason::InvalidInput));
    assert!(SerializedVDFProof::compute(2, &[1u8; 32]).is_ok());
}

#[test]
fn compute_agrees_with_eval() {
    let x = seed(12).to_bytes();
    let proof = SerializedVDFProof::compute(13, &x).unwrap();
    let parameter = SerializedVDFParameter { x, t: 13 };
    let unsolved = UnsolvedVDF::from_parameter(&parameter);
    let solved = UnsolvedVDF::eval(&unsolved).unwrap();
    assert_eq!(SolvedVDF::from_parameter_and_proof(&parameter, &proof), solved);
    assert_eq!(BigNat::from_bytes(&proof.y), solved.y);
    assert_eq!(BigNat::from_bytes(&proof.pi), solved.pi);
    assert_eq!(BigNat::from_bytes(&proof.q), solved.q);
    assert_eq!(proof.nonce, solved.nonce);
}

#[test]
fn a_seed_with_leading_zero_bytes_verifies() {
    let mut x = vec![0u8; 32];
    x[31] = 9;
    let proof = SerializedVDFProof::compute(5, &x).unwrap();
    let parameter = SerializedVDFParameter { x, t: 5 };
    assert_eq!(proof.verify_with_parameter(&parameter), Ok(()));
    // the short form of the same number is no seed
    let short = SerializedVDFParameter { x: vec![9u8], t: 5 };
    assert_eq!(proof.verify_with_parameter(&short), Err(ErrorReason::InvalidInput));
}

#[test]
fn verification_refuses_a_seed_of_the_wrong_length() {
    let x = seed(5).to_bytes();
    assert_eq!(x.len(), 32);
    let proof = SerializedVDFProof::compute(13, &x).unwrap();
    assert_eq!(
        proof.verify_with_parameter(&SerializedVDFParameter { x: x.clone(), t: 13 }),
        Ok(())
    );
    let mut long = x.clone();
    long.insert(0, 0);
    assert_eq!(long.len(), 33);
    for wrong in [vec![], vec![1u8; 31], x[1..].to_vec(), long, vec![1u8; 64]] {
        let parameter = SerializedVDFParameter { x: wrong, t: 13 };
        assert_eq!(proof.verify_with_parameter(&parameter), Err(ErrorReason::InvalidInput));
    }
    // the length of the seed is looked at before the proof is
    let garbage = SerializedVDFProof { y: [0xff; 256], pi: [0xff; 256], q: [0; 256], nonce: 0 };
    let short = SerializedVDFParameter { x: vec![1u8; 31], t: 13 };
    assert_eq!(garbage.verify_with_parameter(&short), Err(ErrorReason::InvalidInput));
    let right = SerializedVDFParameter { x: vec![1u8; 32], t: 13 };
    assert_eq!(garbage.verify_with_parameter(&right), Err(ErrorReason::VDFVerifyError));
}

#[test]
fn from_parameter_reads_the_seed_under_the_trusted_modulus() {
    let parameter = SerializedVDFParameter { x: vec![1, 0], t: 77 };
    let unsolved = UnsolvedVDF::from_parameter(&parameter);
    assert_eq!(unsolved.x, BigNat::from_u64(256));
    assert_eq!(unsolved.setup.t, BigNat::from_u64(77));
    assert_eq!(unsolved.setup.N, get_trusted_rsa_modules());
}

#[test]
fn public_setup_carries_the_delay_and_the_trusted_modulus() {
    let setup = SetupForVDF::public_setup(&BigNat::from_u64(1000));
    assert_eq!(setup.t, BigNat::from_u64(1000));
    assert_eq!(setup.N, get_trusted_rsa_modules());
    assert_eq!(setup.N.to_bytes().len(), 256);
    assert_eq!(setup.N.to_bytes()[0], 0xc7);
    assert_eq!(setup.N.to_bytes()[255], 0xe5);
}

#[test]
fn pick_challenge_keeps_the_setup_and_samples_a_seed_of_32_bytes() {
    let setup = SetupForVDF::public_setup(&BigNat::from_u64(3));
    let first = SetupForVDF::pick_challenge(&setup);
    let second = SetupForVDF::pick_challenge(&setup);
    assert_eq!(first.setup, setup);
    assert!(first.x.to_bytes().len() <= 32);
    assert!(second.x.to_bytes().len() <= 32);
    assert_ne!(first.x, second.x);
    let solved = UnsolvedVDF::eval(&first).unwrap();
    assert_eq!(solved.verify(&first), Ok(()));
    assert_eq!(solved.verify(&second), Err(ErrorReason::MisMatchedVDF));
}

#[test]
fn small_modulus_by_hand() {
    // N = 35: every value can be followed by hand from the group element on
    let unsolved = UnsolvedVDF {
        x: BigNat::from_u64(12345),
        setup: SetupForVDF { t: BigNat::from_u64(3), N: BigNat::from_u64(35) },
    };
    let n = BigNat::from_u64(35);
    let g = h_g(&n, &unsolved.x);
    let solved = UnsolvedVDF::eval(&unsolved).unwrap();
    // y = g^8 mod 35
    assert_eq!(solved.y, BigNat::mod_pow(&g, &BigNat::from_u64(8), &n));
    // the challenge has 256 bits or nearly, so 8 / l = 0 and the witness is 1
    assert_eq!(solved.pi, BigNat::one());
    assert_eq!(solved.verify(&unsolved), Ok(()));
}

#[test]
fn output_or_witness_outside_the_group_is_refused() {
    let unsolved = UnsolvedVDF {
        x: BigNat::from_u64(1),
        setup: SetupForVDF { t: BigNat::from_u64(3), N: BigNat::from_u64(35) },
    };
    let solved = UnsolvedVDF::eval(&unsolved).unwrap();
    assert_eq!(solved.verify(&unsolved), Ok(()));
    let mut tampered = solved.clone();
    tampered.y = BigNat::from_u64(35);
    assert_eq!(tampered.verify(&unsolved), Err(ErrorReason::VDFVerifyError));
    tampered.y = solved.y.add(&BigNat::from_u64(35));
    assert_eq!(tampered.verify(&unsolved), Err(ErrorReason::VDFVerifyError));
    let mut tampered = solved.clone();
    tampered.pi = solved.pi.add(&BigNat::from_u64(35));
    assert_eq!(tampered.verify(&unsolved), Err(ErrorReason::VDFVerifyError));
}

#[test]
fn verify_under_the_modulus_zero_is_an_error_and_no_crash() {
    let unsolved = UnsolvedVDF {
        x: BigNat::from_u64(1),
        setup: SetupForVDF { t: BigNat::from_u64(3), N: BigNat::zero() },
    };
    let solved = SolvedVDF::from_parts(
        unsolved.clone(),
        BigNat::zero(),
        BigNat::zero(),
        BigNat::zero(),
        0,
    );
    assert_eq!(solved.verify(&unsolved), Err(ErrorReason::VDFVerifyError));
}

#[test]
fn solution_is_made_of_its_parts() {
    let unsolved = challenge(13, 1);
    let solved = UnsolvedVDF::eval(&unsolved).unwrap();
    assert_eq!(solved.instance(), &unsolved);
    let again = SolvedVDF::from_parts(
        unsolved.clone(),
        solved.y.clone(),
        solved.pi.clone(),
        solved.q.clone(),
        solved.nonce,
    );
    assert_eq!(again, solved);
    assert_eq!(again.verify(&unsolved), Ok(()));
    // the verifier reads neither the quotient nor the nonce
    let other = SolvedVDF::from_parts(
        unsolved.clone(),
        solved.y.clone(),
        solved.pi.clone(),
        BigNat::from_u64(7),
        solved.nonce + 1,
    );
    assert_ne!(other, solved);
    assert_eq!(other.verify(&unsolved), Ok(()));
}

#[test]
fn sixty_five_thousand_squarings_verify() {
    let x = seed(13).to_bytes();
    let proof = SerializedVDFProof::compute(65536, &x).unwrap();
    let parameter = SerializedVDFParameter { x, t: 65536 };
    assert_eq!(proof.verify_with_parameter(&parameter), Ok(()));
    assert_ne!(proof.pi, [0u8; 256]);
    assert_ne!(proof.q, [0u8; 256]);
}
