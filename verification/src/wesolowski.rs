//! The delay function of Wesolowski over a group of unknown order: the
//! challenge, its evaluation with a proof, and the verification of a proof.

use vstd::prelude::*;
use vstd::arithmetic::power::pow;
use vstd::arithmetic::power2::pow2;
use vstd::std_specs::cmp::PartialEqSpecImpl;
use crate::bigint::BigNat;
use crate::relation::{
    delay_output,
    delay_witness,
    auxiliary_quotient,
    relation_holds,
    square_repeatedly,
    witness_by_long_division,
    check_relation,
    lemma_power_mod_bound,
    lemma_results_below_modulus,
    lemma_witness_satisfies_relation,
};
use crate::serialized::{
    SerializedVDFParameter,
    SerializedVDFProof,
    challenge_of_parameter,
    solution_of_proof,
};
use crate::utilities::{
    ErrorReason,
    get_trusted_rsa_modules,
    trusted_modulus,
    h_g,
    h_g_spec,
    hash_to_prime,
    hash_to_prime_spec,
    lemma_hash_to_prime_spec,
};

verus! {

/// The length of a seed in bytes.
pub const SEED_LENGTH: usize = 32;

/// The number of random bits in a fresh seed.
pub const SEED_BITS: usize = SEED_LENGTH * 8;

/// The parameters of the delay function as numbers.
pub struct Parameters {
    /// The number of squarings.
    pub t: nat,
    /// The modulus.
    pub n: nat,
}

/// A challenge as numbers.
pub struct Challenge {
    /// The seed.
    pub x: nat,
    /// The number of squarings.
    pub t: nat,
    /// The modulus.
    pub n: nat,
}

/// A solved challenge as numbers.
pub struct Solution {
    pub challenge: Challenge,
    /// The output.
    pub y: nat,
    /// The witness.
    pub pi: nat,
    /// The auxiliary quotient.
    pub q: nat,
    /// The nonce that leads to the prime challenge.
    pub nonce: u32,
}

/// The parameters of the delay function: the number `t` of squarings and the
/// modulus `N`.
#[derive(Debug)]
pub struct SetupForVDF {
    pub t: BigNat,
    pub N: BigNat,
}

/// A challenge: a seed `x` under the parameters `setup`.
#[derive(Debug)]
pub struct UnsolvedVDF {
    pub x: BigNat,
    pub setup: SetupForVDF,
}

/// A challenge with its output `y`, the witness `pi`, the auxiliary quotient
/// `q` and the nonce of the prime challenge.
#[derive(Debug)]
pub struct SolvedVDF {
    pub(crate) vdf_instance: UnsolvedVDF,
    pub y: BigNat,
    pub pi: BigNat,
    pub q: BigNat,
    pub nonce: u32,
}

impl View for SetupForVDF {
    type V = Parameters;

    open spec fn view(&self) -> Parameters {
        Parameters { t: self.t@, n: self.N@ }
    }
}

impl View for UnsolvedVDF {
    type V = Challenge;

    open spec fn view(&self) -> Challenge {
        Challenge { x: self.x@, t: self.setup.t@, n: self.setup.N@ }
    }
}

impl View for SolvedVDF {
    type V = Solution;

    open(crate) spec fn view(&self) -> Solution {
        Solution {
            challenge: self.vdf_instance@,
            y: self.y@,
            pi: self.pi@,
            q: self.q@,
            nonce: self.nonce,
        }
    }
}

impl Clone for SetupForVDF {
    fn clone(&self) -> (copy: Self)
        ensures
            copy@ == self@,
    {
        SetupForVDF { t: self.t.clone(), N: self.N.clone() }
    }
}

impl PartialEq for SetupForVDF {
    fn eq(&self, other: &Self) -> (same: bool) {
        self.t == other.t && self.N == other.N
    }
}

impl PartialEqSpecImpl for SetupForVDF {
    open spec fn obeys_eq_spec() -> bool {
        true
    }

    open spec fn eq_spec(&self, other: &Self) -> bool {
        self@ == other@
    }
}

impl Clone for UnsolvedVDF {
    fn clone(&self) -> (copy: Self)
        ensures
            copy@ == self@,
    {
        UnsolvedVDF { x: self.x.clone(), setup: self.setup.clone() }
    }
}

impl PartialEq for UnsolvedVDF {
    fn eq(&self, other: &Self) -> (same: bool) {
        self.x == other.x && self.setup == other.setup
    }
}

impl PartialEqSpecImpl for UnsolvedVDF {
    open spec fn obeys_eq_spec() -> bool {
        true
    }

    open spec fn eq_spec(&self, other: &Self) -> bool {
        self@ == other@
    }
}

impl Clone for SolvedVDF {
    fn clone(&self) -> (copy: Self)
        ensures
            copy@ == self@,
    {
        SolvedVDF {
            vdf_instance: self.vdf_instance.clone(),
            y: self.y.clone(),
            pi: self.pi.clone(),
            q: self.q.clone(),
            nonce: self.nonce,
        }
    }
}

impl PartialEq for SolvedVDF {
    fn eq(&self, other: &Self) -> (same: bool) {
        self.vdf_instance == other.vdf_instance && self.y == other.y && self.pi == other.pi
            && self.q == other.q && self.nonce == other.nonce
    }
}

impl PartialEqSpecImpl for SolvedVDF {
    open spec fn obeys_eq_spec() -> bool {
        true
    }

    open spec fn eq_spec(&self, other: &Self) -> bool {
        self@ == other@
    }
}

/// The solution that the evaluator finds for a challenge: the output after
/// `t` squarings of the group element of the seed, the prime challenge that
/// the element and the output hash to, and the witness and auxiliary
/// quotient for that prime. There is none where no nonce leads to a prime.
pub open spec fn solution_of(c: Challenge) -> Option<Solution> {
    let g = h_g_spec(c.n, c.x);
    let y = delay_output(g, c.t, c.n);
    match hash_to_prime_spec(g, y) {
        None => None,
        Some((l, nonce)) => {
            let pi = delay_witness(g, c.t, l, c.n);
            Some(
                Solution {
                    challenge: c,
                    y,
                    pi,
                    q: auxiliary_quotient(g, pi, c.t, l, c.n),
                    nonce,
                },
            )
        },
    }
}

/// What the verifier answers for a solution that is held against a
/// challenge. Neither the auxiliary quotient nor the nonce is looked at.
pub open spec fn verdict(s: Solution, claimed: Challenge) -> Result<(), ErrorReason> {
    if s.challenge != claimed {
        Err(ErrorReason::MisMatchedVDF)
    } else if s.y >= claimed.n || s.pi >= claimed.n {
        Err(ErrorReason::VDFVerifyError)
    } else {
        let g = h_g_spec(claimed.n, claimed.x);
        match hash_to_prime_spec(g, s.y) {
            None => Err(ErrorReason::InternalError),
            Some((l, _)) => if relation_holds(g, s.y, s.pi, l, claimed.t, claimed.n) {
                Ok(())
            } else {
                Err(ErrorReason::VDFVerifyError)
            },
        }
    }
}

/// Every solution that the evaluator finds is accepted by the verifier when
/// it is held against its own challenge, whatever the seed and the number of
/// squarings, under every modulus of at least two.
pub proof fn lemma_solution_verifies(c: Challenge)
    requires
        c.n > 1,
        solution_of(c) is Some,
    ensures
        verdict(solution_of(c)->0, c) == Ok::<(), ErrorReason>(()),
{
    let g = h_g_spec(c.n, c.x);
    let y = delay_output(g, c.t, c.n);
    lemma_hash_to_prime_spec(g, y);
    let l = match hash_to_prime_spec(g, y) {
        Some((l, _)) => l,
        None => 0,
    };
    let pi = delay_witness(g, c.t, l, c.n);
    lemma_results_below_modulus(g, pi, c.t, l, c.n);
    lemma_witness_satisfies_relation(g, c.t, l, c.n);
}

/// The output of every solution that the evaluator finds is the group
/// element of the seed raised to the power `2^t`, modulo `n`.
pub proof fn lemma_solution_output(c: Challenge)
    requires
        c.n > 0,
        solution_of(c) is Some,
    ensures
        (solution_of(c)->0).y == pow(h_g_spec(c.n, c.x) as int, pow2(c.t)) % (c.n as int),
{
    lemma_power_mod_bound(h_g_spec(c.n, c.x), pow2(c.t), c.n);
}

impl SetupForVDF {
    /// The parameters for `t` squarings under the trusted modulus.
    pub fn public_setup(t: &BigNat) -> (setup: Self)
        ensures
            setup@ == (Parameters { t: t@, n: trusted_modulus() }),
    {
        let N = get_trusted_rsa_modules();
        SetupForVDF { t: t.clone(), N }
    }

    /// A challenge under `setup` with a fresh random seed of `SEED_LENGTH`
    /// bytes.
    pub fn pick_challenge(setup: &SetupForVDF) -> (challenge: UnsolvedVDF)
        ensures
            challenge.setup@ == setup@,
            challenge.x@ < pow2(SEED_BITS as nat),
    {
        let x = BigNat::sample(SEED_BITS);
        UnsolvedVDF { x, setup: setup.clone() }
    }
}

impl UnsolvedVDF {
    /// Evaluates the delay function on the challenge: squares the group
    /// element of the seed `t` times, one squaring after the other, derives
    /// the prime challenge, and builds the witness by long division of `2^t`
    /// by the prime. Fails with `InternalError` where no nonce leads to a
    /// prime.
    pub fn eval(unsolved_vdf: &UnsolvedVDF) -> (result: Result<SolvedVDF, ErrorReason>)
        requires
            unsolved_vdf.setup.N@ > 0,
        ensures
            match result {
                Ok(solved) => solution_of(unsolved_vdf@) == Some(solved@),
                Err(e) => e == ErrorReason::InternalError && solution_of(unsolved_vdf@) is None,
            },
    {
        let N = &unsolved_vdf.setup.N;
        let x = &unsolved_vdf.x;
        let t = &unsolved_vdf.setup.t;

        let g = h_g(N, x);
        let y = square_repeatedly(&g, t, N);
        let (l, nonce) = match hash_to_prime(&g, &y) {
            Ok(found) => found,
            Err(_) => {
                return Err(ErrorReason::InternalError);
            },
        };
        let (pi, q) = witness_by_long_division(&g, t, &l, N);
        Ok(SolvedVDF { vdf_instance: unsolved_vdf.clone(), y, pi, q, nonce })
    }

    /// The challenge that a serialized parameter stands for: its seed read
    /// as a number, under the trusted modulus. The length of the seed is not
    /// looked at here: `SerializedVDFProof::verify_with_parameter` and
    /// `SerializedVDFProof::compute` refuse a seed that is not `SEED_LENGTH`
    /// bytes long.
    pub fn from_parameter(parameter: &SerializedVDFParameter) -> (challenge: Self)
        ensures
            challenge@ == challenge_of_parameter(parameter@),
    {
        let t = BigNat::from_u64(parameter.t);
        let setup = SetupForVDF::public_setup(&t);
        let x = BigNat::from_bytes(parameter.x.as_slice());
        Self { x, setup }
    }
}

impl SolvedVDF {
    /// The solution that a serialized proof stands for, under the challenge
    /// of the serialized parameter. Every field of the proof is read as a
    /// number as it is: whether it is a group element is for `verify` to
    /// say.
    pub fn from_parameter_and_proof(
        parameter: &SerializedVDFParameter,
        serialized: &SerializedVDFProof,
    ) -> (solved: Self)
        ensures
            solved@ == solution_of_proof(parameter@, serialized@),
    {
        let unsolved_vdf = UnsolvedVDF::from_parameter(parameter);
        let y = BigNat::from_bytes(serialized.y.as_slice());
        let pi = BigNat::from_bytes(serialized.pi.as_slice());
        let q = BigNat::from_bytes(serialized.q.as_slice());
        Self { vdf_instance: unsolved_vdf, y, pi, q, nonce: serialized.nonce }
    }

    /// The challenge that this solution was made for.
    pub fn instance(&self) -> (challenge: &UnsolvedVDF)
        ensures
            challenge@ == self@.challenge,
    {
        &self.vdf_instance
    }

    /// A solution made of its parts. Nothing is checked: whether the parts
    /// belong together is for `verify` to say.
    pub fn from_parts(
        vdf_instance: UnsolvedVDF,
        y: BigNat,
        pi: BigNat,
        q: BigNat,
        nonce: u32,
    ) -> (solved: Self)
        ensures
            solved@ == (Solution { challenge: vdf_instance@, y: y@, pi: pi@, q: q@, nonce }),
    {
        SolvedVDF { vdf_instance, y, pi, q, nonce }
    }

    /// Checks the solution against the challenge that the challenger kept:
    /// the solution must be for that very challenge, the output and the
    /// witness must be reduced modulo `N`, and the relation
    /// `pi^l * g^(2^t mod l) = y` must hold modulo `N` for the prime `l`
    /// that the group element and the output hash to.
    pub fn verify(&self, unsolved_vdf: &UnsolvedVDF) -> (result: Result<(), ErrorReason>)
        ensures
            result == verdict(self@, unsolved_vdf@),
    {
        if !(self.vdf_instance == *unsolved_vdf) {
            return Err(ErrorReason::MisMatchedVDF);
        }
        let N = &self.vdf_instance.setup.N;

        if !self.y.less_than(N) || !self.pi.less_than(N) {
            return Err(ErrorReason::VDFVerifyError);
        }
        let g = h_g(N, &self.vdf_instance.x);

        let l = match hash_to_prime(&g, &self.y) {
            Ok((l, _)) => l,
            Err(_) => {
                return Err(ErrorReason::InternalError);
            },
        };

        if check_relation(&g, &self.y, &self.pi, &l, &self.vdf_instance.setup.t, N) {
            Ok(())
        } else {
            Err(ErrorReason::VDFVerifyError)
        }
    }
}

} // verus!
