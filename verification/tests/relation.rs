use vdf::bigint::BigNat;
use vdf::keccak256::Keccak256;
use vdf::relation::{check_relation, square_repeatedly, witness_by_long_division};
use vdf::utilities::{candidate_bytes, takes_candidate};

fn n(v: u64) -> BigNat {
    BigNat::from_u64(v)
}

#[test]
fn squaring_by_hand() {
    // 2^(2^3) = 256 = 7 * 35 + 11
    assert_eq!(square_repeatedly(&n(2), &n(3), &n(35)), n(11));
    // 3^(2^2) = 81 = 11 * 7 + 4
    assert_eq!(square_repeatedly(&n(3), &n(2), &n(7)), n(4));
    assert_eq!(square_repeatedly(&n(5), &n(0), &n(35)), n(5));
    assert_eq!(square_repeatedly(&n(5), &n(1), &n(35)), n(25));
    assert_eq!(square_repeatedly(&n(10), &n(6), &n(221)), n(120));
    assert_eq!(square_repeatedly(&n(2), &n(10), &n(1000003)), n(539960));
    assert_eq!(square_repeatedly(&n(0), &n(4), &n(1)), n(0));
    assert_eq!(square_repeatedly(&n(0), &n(9), &n(35)), n(0));
    assert_eq!(square_repeatedly(&n(1), &n(9), &n(35)), n(1));
}

#[test]
fn witness_by_hand() {
    // 2^3 = 2 * 3 + 2: the witness is 2^2, the last doubled remainder is 2,
    // and the quotient is (4^3 mod 35) * (2^2 mod 35) / 35 = 29 * 4 / 35 = 3
    assert_eq!(witness_by_long_division(&n(2), &n(3), &n(3), &n(35)), (n(4), n(3)));
    // 2^5 = 6 * 5 + 2: the witness is 3^6 = 729 = 9 * 77 + 36
    assert_eq!(witness_by_long_division(&n(3), &n(5), &n(5), &n(77)), (n(36), n(0)));
    assert_eq!(witness_by_long_division(&n(10), &n(6), &n(11), &n(221)), (n(108), n(165)));
    assert_eq!(witness_by_long_division(&n(2), &n(10), &n(7), &n(1000003)), (n(245365), n(0)));
    // 2^3 = 4 * 2 + 0
    assert_eq!(witness_by_long_division(&n(2), &n(3), &n(2), &n(35)), (n(16), n(0)));
}

#[test]
fn witness_without_squaring_is_one() {
    assert_eq!(witness_by_long_division(&n(5), &n(0), &n(3), &n(35)), (n(1), n(0)));
    // also under the modulus one, where every other witness is zero
    assert_eq!(witness_by_long_division(&n(0), &n(0), &n(3), &n(1)), (n(1), n(0)));
    assert_eq!(witness_by_long_division(&n(0), &n(4), &n(3), &n(1)), (n(0), n(0)));
}

#[test]
fn witness_of_one_squaring() {
    // 2^1 = 0 * 3 + 2: the witness is 5^0
    assert_eq!(witness_by_long_division(&n(5), &n(1), &n(3), &n(35)), (n(1), n(0)));
}

#[test]
fn relation_by_hand() {
    // 4^3 * 2^(8 mod 3) = 64 * 4 = 256 = 7 * 35 + 11
    assert!(check_relation(&n(2), &n(11), &n(4), &n(3), &n(3), &n(35)));
    assert!(!check_relation(&n(2), &n(12), &n(4), &n(3), &n(3), &n(35)));
    assert!(!check_relation(&n(2), &n(11), &n(5), &n(3), &n(3), &n(35)));
    assert!(!check_relation(&n(2), &n(11), &n(4), &n(5), &n(3), &n(35)));
    assert!(!check_relation(&n(2), &n(11), &n(4), &n(3), &n(4), &n(35)));
    assert!(!check_relation(&n(3), &n(11), &n(4), &n(3), &n(3), &n(35)));
    assert!(check_relation(&n(10), &n(120), &n(108), &n(11), &n(6), &n(221)));
    assert!(check_relation(&n(5), &n(5), &n(1), &n(3), &n(0), &n(35)));
    // an output that is not reduced never equals the reduced product
    assert!(!check_relation(&n(2), &n(46), &n(4), &n(3), &n(3), &n(35)));
}

#[test]
fn witness_satisfies_the_relation() {
    for g in [0u64, 1, 2, 3, 10, 34] {
        for t in [0u64, 1, 2, 5, 9] {
            for l in [2u64, 3, 5, 7, 257] {
                let modulus = n(35);
                let y = square_repeatedly(&n(g), &n(t), &modulus);
                let (pi, _) = witness_by_long_division(&n(g), &n(t), &n(l), &modulus);
                assert!(
                    check_relation(&n(g), &y, &pi, &n(l), &n(t), &modulus),
                    "g {} t {} l {}",
                    g,
                    t,
                    l
                );
                assert!(y.less_than(&modulus));
                assert!(pi.less_than(&modulus));
            }
        }
    }
}

#[test]
fn candidate_bytes_are_the_two_numbers_and_the_nonce() {
    assert_eq!(candidate_bytes(&n(0x0102), &n(0), 1), vec![1u8, 2, 0, 0, 0, 0, 1]);
    assert_eq!(
        candidate_bytes(&n(255), &n(0x010000), 0xdead_beef),
        vec![255u8, 1, 0, 0, 0xde, 0xad, 0xbe, 0xef]
    );
    assert_eq!(candidate_bytes(&n(0), &n(0), 0), vec![0u8; 6]);
}

#[test]
fn candidate_below_two_is_passed_over() {
    assert!(takes_candidate(&n(2), true));
    assert!(takes_candidate(&n(3), true));
    assert!(takes_candidate(&n(1 << 40), true));
    assert!(!takes_candidate(&n(1), true));
    assert!(!takes_candidate(&n(0), true));
    assert!(!takes_candidate(&n(3), false));
    assert!(!takes_candidate(&n(0), false));
}

#[test]
fn hash_inputs() {
    let a = n(0x0102);
    let b = n(0);
    let c = BigNat::from_bytes(&[0, 0, 0xff]);
    assert_eq!(Keccak256::encode_numbers(&[&a, &b, &c]), vec![1u8, 2, 0, 0xff]);
    assert_eq!(Keccak256::encode_numbers(&[]), Vec::<u8>::new());
    assert_eq!(
        Keccak256::concat_slices(&[vec![1u8, 2], vec![], vec![0u8, 3]]),
        vec![1u8, 2, 0, 3]
    );
    assert_eq!(Keccak256::concat_slices(&[]), Vec::<u8>::new());
}
