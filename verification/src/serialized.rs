//! The wire format: a parameter is a seed with the number of squarings, a
//! proof is 772 bytes that hold the output, the witness and the auxiliary
//! quotient in 256 bytes each, big-endian and zero-padded, and the nonce in
//! four bytes, big-endian.

use vstd::prelude::*;
use vstd::arithmetic::power::pow;
use vstd::arithmetic::power2::pow2;
use crate::bigint::BigNat;
use crate::encoding::{
    be_value,
    be_fixed,
    radix,
    append_bytes,
    fixed_width_bytes,
    fixed_width_bytes_of_u64,
    copy_range,
    u32_of_bytes,
    u64_of_bytes,
    lemma_be_fixed_len,
    lemma_be_minimal,
    lemma_be_fixed_value,
    lemma_be_fixed_of_value,
    lemma_be_value_bound,
    lemma_minimal_length,
    lemma_radix_machine,
};
use crate::relation::lemma_results_below_modulus;
use crate::utilities::{
    ErrorReason,
    GROUP_SIZE,
    NONCE_SIZE,
    trusted_modulus,
    lemma_trusted_modulus_size,
    h_g_spec,
    hash_to_prime_spec,
};
use crate::wesolowski::{
    SEED_LENGTH,
    Challenge,
    Solution,
    SetupForVDF,
    UnsolvedVDF,
    SolvedVDF,
    solution_of,
    verdict,
    lemma_solution_verifies,
    lemma_solution_output,
};

verus! {

/// A serialized parameter as plain values.
pub struct ParameterFields {
    pub x: Seq<u8>,
    pub t: u64,
}

/// A serialized proof as plain values: the three fields of `GROUP_SIZE` bytes
/// and the nonce.
pub struct ProofFields {
    pub y: Seq<u8>,
    pub pi: Seq<u8>,
    pub q: Seq<u8>,
    pub nonce: u32,
}

/// A challenge on the wire: the seed `x` and the number `t` of squarings.
#[derive(Clone, Debug, PartialEq)]
pub struct SerializedVDFParameter {
    pub x: Vec<u8>,
    pub t: u64,
}

/// A proof on the wire: the output `y`, the witness `pi` and the auxiliary
/// quotient `q`, each big-endian in `GROUP_SIZE` bytes, and the nonce.
#[derive(Clone, Debug, PartialEq)]
pub struct SerializedVDFProof {
    pub y: [u8; GROUP_SIZE],
    pub pi: [u8; GROUP_SIZE],
    pub q: [u8; GROUP_SIZE],
    pub nonce: u32,
}

impl View for SerializedVDFParameter {
    type V = ParameterFields;

    open spec fn view(&self) -> ParameterFields {
        ParameterFields { x: self.x@, t: self.t }
    }
}

impl View for SerializedVDFProof {
    type V = ProofFields;

    open spec fn view(&self) -> ProofFields {
        ProofFields { y: self.y@, pi: self.pi@, q: self.q@, nonce: self.nonce }
    }
}

/// The length in bytes of the number of squarings on the wire.
pub const DELAY_SIZE: usize = 8;

/// The number of bytes of a serialized parameter.
pub open spec fn parameter_size() -> nat {
    (SEED_LENGTH + DELAY_SIZE) as nat
}

/// The bytes of a parameter: the seed, then the number of squarings
/// big-endian.
pub open spec fn encode_parameter(p: ParameterFields) -> Seq<u8> {
    p.x + be_fixed(p.t as nat, DELAY_SIZE as nat)
}

/// The parameter that 40 bytes hold.
pub open spec fn decode_parameter(bytes: Seq<u8>) -> ParameterFields {
    ParameterFields {
        x: bytes.subrange(0, SEED_LENGTH as int),
        t: be_value(bytes.subrange(SEED_LENGTH as int, SEED_LENGTH + DELAY_SIZE)) as u64,
    }
}

/// A parameter with a seed of `SEED_LENGTH` bytes that is encoded and
/// decoded again is the same parameter, and its encoding has exactly 40
/// bytes.
pub proof fn lemma_decode_encode_parameter(p: ParameterFields)
    requires
        p.x.len() == SEED_LENGTH,
    ensures
        encode_parameter(p).len() == parameter_size(),
        parameter_size() == 40,
        decode_parameter(encode_parameter(p)) == p,
{
    let delay_bytes = be_fixed(p.t as nat, DELAY_SIZE as nat);
    lemma_be_fixed_len(p.t as nat, DELAY_SIZE as nat);
    lemma_radix_machine();
    lemma_be_fixed_value(p.t as nat, DELAY_SIZE as nat);
    let bytes = encode_parameter(p);
    assert(bytes.subrange(0, SEED_LENGTH as int) =~= p.x);
    assert(bytes.subrange(SEED_LENGTH as int, SEED_LENGTH + DELAY_SIZE) =~= delay_bytes);
}

/// Every string of 40 bytes is the encoding of the parameter that it
/// decodes to.
pub proof fn lemma_encode_decode_parameter(bytes: Seq<u8>)
    requires
        bytes.len() == parameter_size(),
    ensures
        decode_parameter(bytes).x.len() == SEED_LENGTH,
        encode_parameter(decode_parameter(bytes)) == bytes,
{
    let tail = bytes.subrange(SEED_LENGTH as int, SEED_LENGTH + DELAY_SIZE);
    lemma_be_value_bound(tail);
    lemma_radix_machine();
    lemma_be_fixed_of_value(tail);
    assert(encode_parameter(decode_parameter(bytes)) =~= bytes);
}

/// The number of bytes of a serialized proof.
pub open spec fn proof_size() -> nat {
    (3 * GROUP_SIZE + NONCE_SIZE) as nat
}

/// Whether the three fields have the length that the wire format gives them.
pub open spec fn well_formed(p: ProofFields) -> bool {
    p.y.len() == GROUP_SIZE && p.pi.len() == GROUP_SIZE && p.q.len() == GROUP_SIZE
}

/// The bytes of a proof: `y`, `pi`, `q`, then the nonce big-endian.
pub open spec fn encode(p: ProofFields) -> Seq<u8> {
    p.y + p.pi + p.q + be_fixed(p.nonce as nat, NONCE_SIZE as nat)
}

/// The proof that `772` bytes hold.
pub open spec fn decode(bytes: Seq<u8>) -> ProofFields {
    ProofFields {
        y: bytes.subrange(0, GROUP_SIZE as int),
        pi: bytes.subrange(GROUP_SIZE as int, 2 * GROUP_SIZE),
        q: bytes.subrange(2 * GROUP_SIZE, 3 * GROUP_SIZE),
        nonce: be_value(bytes.subrange(3 * GROUP_SIZE, 3 * GROUP_SIZE + NONCE_SIZE)) as u32,
    }
}

/// The challenge that a serialized parameter stands for.
pub open spec fn challenge_of_parameter(p: ParameterFields) -> Challenge {
    Challenge { x: be_value(p.x), t: p.t as nat, n: trusted_modulus() }
}

/// The solution that a serialized proof stands for under a parameter.
pub open spec fn solution_of_proof(parameter: ParameterFields, p: ProofFields) -> Solution {
    Solution {
        challenge: challenge_of_parameter(parameter),
        y: be_value(p.y),
        pi: be_value(p.pi),
        q: be_value(p.q),
        nonce: p.nonce,
    }
}

/// The serialized form of a solution.
pub open spec fn proof_of_solution(s: Solution) -> ProofFields {
    ProofFields {
        y: be_fixed(s.y, GROUP_SIZE as nat),
        pi: be_fixed(s.pi, GROUP_SIZE as nat),
        q: be_fixed(s.q, GROUP_SIZE as nat),
        nonce: s.nonce,
    }
}

/// What `compute` returns for `t` squarings of the seed `x`: `InvalidInput`
/// for a seed that is not `SEED_LENGTH` bytes long, `InternalError` where no
/// nonce leads to a prime challenge, and else the serialized solution of the
/// challenge.
pub open spec fn compute_spec(t: u64, x: Seq<u8>) -> Result<ProofFields, ErrorReason> {
    if x.len() != SEED_LENGTH {
        Err(ErrorReason::InvalidInput)
    } else {
        match solution_of(challenge_of_parameter(ParameterFields { x, t })) {
            None => Err(ErrorReason::InternalError),
            Some(s) => Ok(proof_of_solution(s)),
        }
    }
}

/// What `verify_with_parameter` answers for a proof under a parameter:
/// `InvalidInput` for a seed that is not `SEED_LENGTH` bytes long, whatever
/// the proof holds, and else the answer of the verifier for the solution that
/// the proof stands for.
pub open spec fn verify_spec(parameter: ParameterFields, p: ProofFields) -> Result<
    (),
    ErrorReason,
> {
    if parameter.x.len() != SEED_LENGTH {
        Err(ErrorReason::InvalidInput)
    } else {
        verdict(solution_of_proof(parameter, p), challenge_of_parameter(parameter))
    }
}

/// Serialization loses nothing: a proof that is encoded and decoded again is
/// the same proof, and its encoding has exactly 772 bytes.
pub proof fn lemma_decode_encode(p: ProofFields)
    requires
        well_formed(p),
    ensures
        encode(p).len() == proof_size(),
        proof_size() == 772,
        decode(encode(p)) == p,
{
    let nonce_bytes = be_fixed(p.nonce as nat, NONCE_SIZE as nat);
    lemma_be_fixed_len(p.nonce as nat, NONCE_SIZE as nat);
    lemma_radix_machine();
    lemma_be_fixed_value(p.nonce as nat, NONCE_SIZE as nat);
    let bytes = encode(p);
    assert(bytes.subrange(0, GROUP_SIZE as int) =~= p.y);
    assert(bytes.subrange(GROUP_SIZE as int, 2 * GROUP_SIZE) =~= p.pi);
    assert(bytes.subrange(2 * GROUP_SIZE, 3 * GROUP_SIZE) =~= p.q);
    assert(bytes.subrange(3 * GROUP_SIZE, 3 * GROUP_SIZE + NONCE_SIZE) =~= nonce_bytes);
}

/// Every string of 772 bytes is the encoding of the proof that it decodes
/// to.
pub proof fn lemma_encode_decode(bytes: Seq<u8>)
    requires
        bytes.len() == proof_size(),
    ensures
        well_formed(decode(bytes)),
        encode(decode(bytes)) == bytes,
{
    let tail = bytes.subrange(3 * GROUP_SIZE, 3 * GROUP_SIZE + NONCE_SIZE);
    lemma_be_value_bound(tail);
    lemma_radix_machine();
    lemma_be_fixed_of_value(tail);
    assert(encode(decode(bytes)) =~= bytes);
}

/// Under a modulus that fits the group size, the fields of a solution are
/// read back from their serialized form as they were.
pub proof fn lemma_solution_fits(c: Challenge)
    requires
        1 < c.n < radix(GROUP_SIZE as nat),
        solution_of(c) is Some,
    ensures
        ({
            let s = solution_of(c)->0;
            &&& s.y < c.n
            &&& s.pi < c.n
            &&& s.q < c.n
            &&& be_value(be_fixed(s.y, GROUP_SIZE as nat)) == s.y
            &&& be_value(be_fixed(s.pi, GROUP_SIZE as nat)) == s.pi
            &&& be_value(be_fixed(s.q, GROUP_SIZE as nat)) == s.q
        }),
{
    let s = solution_of(c)->0;
    let g = h_g_spec(c.n, c.x);
    let l = match hash_to_prime_spec(g, s.y) {
        Some((l, _)) => l,
        None => 0,
    };
    lemma_results_below_modulus(g, s.pi, c.t, l, c.n);
    lemma_be_fixed_value(s.y, GROUP_SIZE as nat);
    lemma_be_fixed_value(s.pi, GROUP_SIZE as nat);
    lemma_be_fixed_value(s.q, GROUP_SIZE as nat);
}

/// Whatever `compute` returns as a proof, `verify_with_parameter` accepts
/// under the parameter that it was computed for: this holds for every seed
/// and every number of squarings.
pub proof fn lemma_computed_proof_verifies(t: u64, x: Seq<u8>)
    requires
        compute_spec(t, x) is Ok,
    ensures
        verify_spec(ParameterFields { x, t }, compute_spec(t, x)->Ok_0) == Ok::<(), ErrorReason>(()),
{
    let c = challenge_of_parameter(ParameterFields { x, t });
    let s = solution_of(c)->0;
    lemma_trusted_modulus_size();
    lemma_solution_fits(c);
    lemma_solution_verifies(c);
    assert(solution_of_proof(ParameterFields { x, t }, proof_of_solution(s)) == s);
}

/// The verification reads the output and the witness only: two proofs that
/// differ in nothing but the auxiliary quotient and the nonce get the same
/// answer under every parameter, of whatever seed length.
pub proof fn lemma_verification_ignores_quotient_and_nonce(
    parameter: ParameterFields,
    a: ProofFields,
    b: ProofFields,
)
    requires
        a.y == b.y,
        a.pi == b.pi,
    ensures
        verify_spec(parameter, a) == verify_spec(parameter, b),
{
}

/// The output in a computed proof is the group element of the seed raised to
/// the power `2^t`, modulo the trusted modulus.
pub proof fn lemma_computed_output(t: u64, x: Seq<u8>)
    requires
        compute_spec(t, x) is Ok,
    ensures
        be_value((compute_spec(t, x)->Ok_0).y) == pow(
            h_g_spec(trusted_modulus(), be_value(x)) as int,
            pow2(t as nat),
        ) % (trusted_modulus() as int),
{
    let c = challenge_of_parameter(ParameterFields { x, t });
    lemma_trusted_modulus_size();
    lemma_solution_fits(c);
    lemma_solution_output(c);
}

/// `compute` is a function of its arguments: two results for the same seed
/// and the same number of squarings are the same.
pub proof fn lemma_compute_deterministic(
    t: u64,
    x: Seq<u8>,
    first: Result<ProofFields, ErrorReason>,
    second: Result<ProofFields, ErrorReason>,
)
    requires
        first == compute_spec(t, x),
        second == compute_spec(t, x),
    ensures
        first == second,
        first is Ok ==> encode(first->Ok_0) == encode(second->Ok_0),
{
}

/// The fixed-width encoding of a number that fits `GROUP_SIZE` bytes.
fn group_element_bytes(n: &BigNat) -> (out: [u8; GROUP_SIZE])
    requires
        n@ < radix(GROUP_SIZE as nat),
    ensures
        out@ == be_fixed(n@, GROUP_SIZE as nat),
{
    let minimal = n.to_bytes();
    proof {
        lemma_minimal_length(n@, GROUP_SIZE as nat);
        lemma_be_minimal(n@);
    }
    let padded = fixed_width_bytes(minimal.as_slice(), GROUP_SIZE);
    let mut out = [0u8; GROUP_SIZE];
    let mut i: usize = 0;
    while i < GROUP_SIZE
        invariant
            i <= GROUP_SIZE,
            padded@.len() == GROUP_SIZE,
            forall|j: int| 0 <= j < i ==> out@[j] == padded@[j],
        decreases GROUP_SIZE - i,
    {
        out[i] = padded[i];
        i += 1;
    }
    proof {
        assert(out@ =~= padded@);
    }
    out
}

/// The `GROUP_SIZE` bytes of `bytes` that start at `start`.
fn group_element_field(bytes: &[u8], start: usize) -> (out: [u8; GROUP_SIZE])
    requires
        start + GROUP_SIZE <= bytes.len(),
    ensures
        out@ == bytes@.subrange(start as int, start + GROUP_SIZE),
{
    let mut out = [0u8; GROUP_SIZE];
    let mut i: usize = 0;
    while i < GROUP_SIZE
        invariant
            i <= GROUP_SIZE,
            start + GROUP_SIZE <= bytes.len(),
            forall|j: int| 0 <= j < i ==> out@[j] == bytes@[start + j],
        decreases GROUP_SIZE - i,
    {
        out[i] = bytes[start + i];
        i += 1;
    }
    proof {
        assert(out@ =~= bytes@.subrange(start as int, start + GROUP_SIZE));
    }
    out
}

impl SerializedVDFParameter {
    /// The number of bytes of a serialized parameter.
    pub const SIZE: usize = SEED_LENGTH + DELAY_SIZE;

    /// The bytes of the parameter: the seed, then the number of squarings in
    /// eight bytes, big-endian. They are 40 where the seed has its 32 bytes.
    pub fn to_bytes(&self) -> (bytes: Vec<u8>)
        ensures
            bytes@ == encode_parameter(self@),
            bytes@.len() == self.x@.len() + DELAY_SIZE,
    {
        let mut bytes: Vec<u8> = Vec::new();
        append_bytes(&mut bytes, self.x.as_slice());
        let delay_bytes = fixed_width_bytes_of_u64(self.t, DELAY_SIZE);
        append_bytes(&mut bytes, delay_bytes.as_slice());
        bytes
    }

    /// Reads a parameter from its 40 bytes.
    pub fn from_bytes(bytes: &[u8]) -> (decoded: Self)
        requires
            bytes.len() == parameter_size(),
        ensures
            decoded@ == decode_parameter(bytes@),
    {
        let x = copy_range(bytes, 0, SEED_LENGTH);
        let delay_bytes = copy_range(bytes, SEED_LENGTH, SEED_LENGTH + DELAY_SIZE);
        let t = u64_of_bytes(delay_bytes.as_slice());
        Self { x, t }
    }

    /// A parameter read from bytes of any length: `InvalidInput` unless
    /// there are exactly 40 of them.
    pub fn try_from_bytes(bytes: &[u8]) -> (result: Result<Self, ErrorReason>)
        ensures
            match result {
                Ok(decoded) => bytes@.len() == parameter_size() && decoded@ == decode_parameter(
                    bytes@,
                ),
                Err(e) => bytes@.len() != parameter_size() && e == ErrorReason::InvalidInput,
            },
    {
        if bytes.len() == Self::SIZE {
            Ok(Self::from_bytes(bytes))
        } else {
            Err(ErrorReason::InvalidInput)
        }
    }
}

impl SerializedVDFProof {
    /// The number of bytes of a serialized proof.
    pub const SIZE: usize = GROUP_SIZE * 3 + NONCE_SIZE;

    /// Verifies the proof under the challenge that `parameter` stands for. A
    /// parameter whose seed is not `SEED_LENGTH` bytes long is refused with
    /// `InvalidInput` before the proof is looked at.
    pub fn verify_with_parameter(&self, parameter: &SerializedVDFParameter) -> (result: Result<
        (),
        ErrorReason,
    >)
        ensures
            result == verify_spec(parameter@, self@),
    {
        if parameter.x.len() != SEED_LENGTH {
            return Err(ErrorReason::InvalidInput);
        }
        let solved_vdf = SolvedVDF::from_parameter_and_proof(parameter, self);
        let unsolved_vdf = solved_vdf.instance();
        solved_vdf.verify(unsolved_vdf)
    }

    /// Reads a proof from its 772 bytes. Any content is accepted: whether
    /// the fields are group elements is for the verification to say.
    pub fn from_bytes(_bytes: &[u8]) -> (decoded: Self)
        requires
            _bytes.len() == proof_size(),
        ensures
            decoded@ == decode(_bytes@),
    {
        let y = group_element_field(_bytes, 0);
        let pi = group_element_field(_bytes, GROUP_SIZE);
        let q = group_element_field(_bytes, GROUP_SIZE * 2);
        let nonce_bytes = copy_range(_bytes, GROUP_SIZE * 3, GROUP_SIZE * 3 + NONCE_SIZE);
        let nonce = u32_of_bytes(nonce_bytes.as_slice());
        Self { y, pi, q, nonce }
    }

    /// A proof read from bytes of any length: `InvalidInput` unless there
    /// are exactly 772 of them.
    pub fn try_from_bytes(bytes: &[u8]) -> (result: Result<Self, ErrorReason>)
        ensures
            match result {
                Ok(decoded) => bytes@.len() == proof_size() && decoded@ == decode(bytes@),
                Err(e) => bytes@.len() != proof_size() && e == ErrorReason::InvalidInput,
            },
    {
        if bytes.len() == Self::SIZE {
            Ok(Self::from_bytes(bytes))
        } else {
            Err(ErrorReason::InvalidInput)
        }
    }

    /// The 772 bytes of the proof.
    pub fn to_bytes(&self) -> (bytes: Vec<u8>)
        ensures
            bytes@ == encode(self@),
            bytes@.len() == proof_size(),
    {
        let mut bytes: Vec<u8> = Vec::new();
        append_bytes(&mut bytes, self.y.as_slice());
        append_bytes(&mut bytes, self.pi.as_slice());
        append_bytes(&mut bytes, self.q.as_slice());
        let nonce_bytes = fixed_width_bytes_of_u64(self.nonce as u64, NONCE_SIZE);
        append_bytes(&mut bytes, nonce_bytes.as_slice());
        bytes
    }

    /// Evaluates the delay function for `_t` squarings of the seed `_x`
    /// under the trusted modulus, checks the result with the verifier, and
    /// serializes it. A seed that is not `SEED_LENGTH` bytes long is refused
    /// with `InvalidInput`. No result is returned that the verifier does not
    /// accept, and none is ever withheld for that reason: the only failure
    /// left is `InternalError`, where no nonce leads to a prime challenge.
    pub fn compute(_t: u64, _x: &[u8]) -> (result: Result<Self, ErrorReason>)
        ensures
            match result {
                Ok(computed) => compute_spec(_t, _x@) == Ok::<ProofFields, ErrorReason>(computed@),
                Err(e) => compute_spec(_t, _x@) == Err::<ProofFields, ErrorReason>(e),
            },
    {
        if _x.len() != SEED_LENGTH {
            return Err(ErrorReason::InvalidInput);
        }
        let t = BigNat::from_u64(_t);
        let x = BigNat::from_bytes(_x);
        let setup = SetupForVDF::public_setup(&t);
        let unsolved_vdf = UnsolvedVDF { x, setup };
        proof {
            lemma_trusted_modulus_size();
        }
        let solved_vdf = match UnsolvedVDF::eval(&unsolved_vdf) {
            Ok(solved) => solved,
            Err(e) => {
                return Err(e);
            },
        };
        proof {
            lemma_solution_verifies(unsolved_vdf@);
            lemma_solution_fits(unsolved_vdf@);
        }
        match solved_vdf.verify(&unsolved_vdf) {
            Ok(_) => {},
            Err(_) => {
                return Err(ErrorReason::InternalError);
            },
        }
        let y = group_element_bytes(&solved_vdf.y);
        let pi = group_element_bytes(&solved_vdf.pi);
        let q = group_element_bytes(&solved_vdf.q);
        Ok(Self { y, pi, q, nonce: solved_vdf.nonce })
    }
}

} // verus!
