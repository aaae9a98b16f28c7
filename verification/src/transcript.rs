//! The Fiat-Shamir transcript. Both parties maintain a 32-byte chaining
//! state; every prover message is absorbed into the state and appended
//! to the message string, and every challenge is a digest of the state.
//! The verifier replays the identical absorb/squeeze schedule, reading
//! the messages back out of the string, so the two parties' challenges
//! agree exactly when the absorbed data agrees. All challenge values are
//! specified as functions of the state, which makes every consumer of
//! the transcript deterministic by construction.

use vstd::prelude::*;
use vstd::arithmetic::power2::pow2;
use crate::hashing::digest_of;
use crate::codec::{u64_from_le_at, u64_le_bytes, decode_u64_le, encode_u64_le, extend_bytes};
use crate::field::P;

verus! {

/// A proof-of-work nonce passes at difficulty `bits` when the first
/// eight digest bytes of challenge-plus-nonce, read as a number, fall
/// below `2^(64 - bits)`.
pub open spec fn pow_ok(challenge: Seq<u8>, nonce: u64, bits: u64) -> bool {
    bits == 0 || u64_from_le_at(digest_of(challenge + u64_le_bytes(nonce)), 0) < pow2(
        (64 - bits) as nat,
    )
}

/// The astronomically unlikely event that no nonce at all meets a
/// challenge's difficulty.
pub open spec fn grinding_exhausted(challenge: Seq<u8>, bits: u64) -> bool {
    forall|n: u64| !pow_ok(challenge, n, bits)
}

/// `n` is the smallest nonce that meets the difficulty.
pub open spec fn is_least_nonce(challenge: Seq<u8>, n: u64, bits: u64) -> bool {
    pow_ok(challenge, n, bits) && forall|m: u64| m < n ==> !pow_ok(challenge, m, bits)
}

/// The smallest nonce that meets the difficulty; what an honest
/// prover's grind yields.
pub open spec fn least_nonce(challenge: Seq<u8>, bits: u64) -> u64 {
    choose|n: u64| is_least_nonce(challenge, n, bits)
}

/// At most one nonce is least, so grinding is deterministic.
pub proof fn lemma_least_nonce_unique(challenge: Seq<u8>, n: u64, bits: u64)
    requires
        is_least_nonce(challenge, n, bits),
    ensures
        n == least_nonce(challenge, bits),
{
    let w = least_nonce(challenge, bits);
    assert(is_least_nonce(challenge, w, bits));
    if n < w {
        assert(!pow_ok(challenge, n, bits));
    }
    if w < n {
        assert(!pow_ok(challenge, w, bits));
    }
}

/// Checks one nonce against a grinding challenge.
pub fn check_pow(challenge: &Vec<u8>, nonce: u64, bits: u64) -> (r: bool)
    requires
        bits <= 32,
    ensures
        r == pow_ok(challenge@, nonce, bits),
{
    if bits == 0 {
        return true;
    }
    let mut buf: Vec<u8> = Vec::new();
    extend_bytes(&mut buf, challenge);
    encode_u64_le(nonce, &mut buf);
    proof {
        assert(buf@ =~= challenge@ + u64_le_bytes(nonce));
    }
    let d = crate::hashing::hash_bytes(&buf);
    let v = decode_u64_le(&d, 0);
    let t = crate::poly_utils::pow2_u64(64 - bits);
    v < t
}

/// Searches nonces from zero until one passes the difficulty. Grinding
/// is the prover's deliberate, unbounded-looking cost, not a failure
/// mode; `None` arises only in the impossible-in-practice event that
/// every nonce fails.
pub fn grind(challenge: &Vec<u8>, bits: u64) -> (r: Option<u64>)
    requires
        bits <= 32,
    ensures
        r is Some ==> r->0 == least_nonce(challenge@, bits) && pow_ok(challenge@, r->0, bits),
        r is None ==> grinding_exhausted(challenge@, bits),
{
    let mut nonce: u64 = 0;
    while nonce < u64::MAX
        invariant
            bits <= 32,
            forall|n: u64| n < nonce ==> !pow_ok(challenge@, n, bits),
        decreases u64::MAX - nonce,
    {
        if check_pow(challenge, nonce, bits) {
            proof {
                lemma_least_nonce_unique(challenge@, nonce, bits);
            }
            return Some(nonce);
        }
        nonce = nonce + 1;
    }
    if check_pow(challenge, u64::MAX, bits) {
        proof {
            lemma_least_nonce_unique(challenge@, u64::MAX, bits);
        }
        Some(u64::MAX)
    } else {
        None
    }
}

pub const TAG_INIT: u8 = 0;

pub const TAG_ABSORB: u8 = 1;

pub const TAG_SQUEEZE: u8 = 2;

pub const TAG_CHALLENGE: u8 = 3;

/// The transcript state after initialisation with a seed (the domain
/// separation label followed by the parameter encoding).
pub open spec fn init_state(seed: Seq<u8>) -> Seq<u8> {
    digest_of(seq![TAG_INIT] + seed)
}

/// The transcript state after a prover message is absorbed.
pub open spec fn absorb_state(st: Seq<u8>, msg: Seq<u8>) -> Seq<u8> {
    digest_of(seq![TAG_ABSORB] + st + msg)
}

/// The challenge bytes that the current state yields.
pub open spec fn challenge_bytes_of(st: Seq<u8>) -> Seq<u8> {
    digest_of(seq![TAG_CHALLENGE] + st)
}

/// The transcript state after one squeeze.
pub open spec fn squeeze_next(st: Seq<u8>) -> Seq<u8> {
    digest_of(seq![TAG_SQUEEZE] + st)
}

/// The field element that the current state yields.
pub open spec fn felt_of_state(st: Seq<u8>) -> u64 {
    (u64_from_le_at(challenge_bytes_of(st), 0) % (P as int)) as u64
}

/// The query index below `bound` that the current state yields.
pub open spec fn index_of_state(st: Seq<u8>, bound: u64) -> u64 {
    (u64_from_le_at(challenge_bytes_of(st), 0) % (bound as int)) as u64
}

/// The transcript state after `n` squeezes.
pub open spec fn fs_after_squeezes(fs: Seq<u8>, n: int) -> Seq<u8>
    decreases n,
{
    if n <= 0 {
        fs
    } else {
        fs_after_squeezes(squeeze_next(fs), n - 1)
    }
}

/// The `n` query indices below `bound` that successive squeezes yield.
pub open spec fn squeezed_indices(fs: Seq<u8>, n: int, bound: u64) -> Seq<u64>
    decreases n,
{
    if n <= 0 {
        Seq::empty()
    } else {
        seq![index_of_state(fs, bound)] + squeezed_indices(squeeze_next(fs), n - 1, bound)
    }
}

fn chain2(tag: u8, fs: &Vec<u8>, msg: &Vec<u8>) -> (r: Vec<u8>)
    ensures
        r@ == digest_of(seq![tag] + fs@ + msg@),
        r@.len() == 32,
{
    let mut buf: Vec<u8> = Vec::new();
    buf.push(tag);
    extend_bytes(&mut buf, fs);
    extend_bytes(&mut buf, msg);
    proof {
        assert(buf@ =~= seq![tag] + fs@ + msg@);
    }
    crate::hashing::hash_bytes(&buf)
}

fn chain1(tag: u8, fs: &Vec<u8>) -> (r: Vec<u8>)
    ensures
        r@ == digest_of(seq![tag] + fs@),
        r@.len() == 32,
{
    let mut buf: Vec<u8> = Vec::new();
    buf.push(tag);
    extend_bytes(&mut buf, fs);
    proof {
        assert(buf@ =~= seq![tag] + fs@);
    }
    crate::hashing::hash_bytes(&buf)
}

fn squeeze_felt_state(fs: &mut Vec<u8>) -> (r: u64)
    ensures
        r == felt_of_state(old(fs)@),
        final(fs)@ == squeeze_next(old(fs)@),
        r < P,
{
    let cb = chain1(TAG_CHALLENGE, fs);
    let v = decode_u64_le(&cb, 0);
    let r = v % P;
    *fs = chain1(TAG_SQUEEZE, fs);
    r
}

fn squeeze_index_state(fs: &mut Vec<u8>, bound: u64) -> (r: u64)
    requires
        bound > 0,
    ensures
        r == index_of_state(old(fs)@, bound),
        final(fs)@ == squeeze_next(old(fs)@),
        r < bound,
{
    let cb = chain1(TAG_CHALLENGE, fs);
    let v = decode_u64_le(&cb, 0);
    let r = v % bound;
    *fs = chain1(TAG_SQUEEZE, fs);
    r
}

fn squeeze_challenge_state(fs: &mut Vec<u8>) -> (r: Vec<u8>)
    ensures
        r@ == challenge_bytes_of(old(fs)@),
        final(fs)@ == squeeze_next(old(fs)@),
        r@.len() == 32,
{
    let cb = chain1(TAG_CHALLENGE, fs);
    *fs = chain1(TAG_SQUEEZE, fs);
    cb
}

/// The prover's transcript: the chaining state and the message string
/// accumulated so far. The message string is what travels to the
/// verifier beside the proof object.
pub struct ProverState {
    pub fs: Vec<u8>,
    pub narg: Vec<u8>,
}

impl ProverState {
    /// Opens a prover transcript on a seed: the domain-separation label
    /// followed by the encoded parameters.
    pub fn new(seed: &Vec<u8>) -> (r: ProverState)
        ensures
            r.fs@ == init_state(seed@),
            r.narg@ == Seq::<u8>::empty(),
    {
        let fs = chain1(TAG_INIT, seed);
        let narg: Vec<u8> = Vec::new();
        proof {
            assert(narg@ =~= Seq::<u8>::empty());
        }
        ProverState { fs, narg }
    }

    /// Sends a prover message: appends it to the message string and
    /// absorbs it into the state.
    pub fn absorb(&mut self, msg: &Vec<u8>)
        ensures
            final(self).fs@ == absorb_state(old(self).fs@, msg@),
            final(self).narg@ == old(self).narg@ + msg@,
    {
        self.fs = chain2(TAG_ABSORB, &self.fs, msg);
        extend_bytes(&mut self.narg, msg);
    }

    /// Draws a field element challenge.
    pub fn squeeze_felt(&mut self) -> (r: u64)
        ensures
            r == felt_of_state(old(self).fs@),
            final(self).fs@ == squeeze_next(old(self).fs@),
            final(self).narg@ == old(self).narg@,
            r < P,
    {
        squeeze_felt_state(&mut self.fs)
    }

    /// Draws a query index below `bound`.
    pub fn squeeze_index(&mut self, bound: u64) -> (r: u64)
        requires
            bound > 0,
        ensures
            r == index_of_state(old(self).fs@, bound),
            final(self).fs@ == squeeze_next(old(self).fs@),
            final(self).narg@ == old(self).narg@,
            r < bound,
    {
        squeeze_index_state(&mut self.fs, bound)
    }

    /// Draws the 32-byte challenge that seeds a round's proof-of-work.
    pub fn squeeze_challenge(&mut self) -> (r: Vec<u8>)
        ensures
            r@ == challenge_bytes_of(old(self).fs@),
            final(self).fs@ == squeeze_next(old(self).fs@),
            final(self).narg@ == old(self).narg@,
            r@.len() == 32,
    {
        squeeze_challenge_state(&mut self.fs)
    }

    /// The message string accumulated so far.
    pub fn narg_string(&self) -> (r: &Vec<u8>)
        ensures
            r@ == self.narg@,
    {
        &self.narg
    }
}

/// The verifier's transcript: the same chaining state, with the prover's
/// message string read back message by message.
pub struct VerifierState {
    pub fs: Vec<u8>,
    pub narg: Vec<u8>,
    pub pos: usize,
}

impl VerifierState {
    /// Opens a verifier transcript on the same seed the prover used and
    /// on the received message string.
    pub fn new(seed: &Vec<u8>, narg: Vec<u8>) -> (r: VerifierState)
        ensures
            r.fs@ == init_state(seed@),
            r.narg@ == narg@,
            r.pos == 0,
    {
        let fs = chain1(TAG_INIT, seed);
        VerifierState { fs, narg, pos: 0 }
    }

    /// Reads the next `len` bytes of the message string and absorbs
    /// them, exactly as the prover absorbed them; `None` when the string
    /// is too short.
    pub fn read_message(&mut self, len: usize) -> (r: Option<Vec<u8>>)
        ensures
            final(self).narg@ == old(self).narg@,
            old(self).pos + len <= old(self).narg@.len() ==> r is Some
                && r->0@ == old(self).narg@.subrange(
                old(self).pos as int,
                old(self).pos + len,
            ) && final(self).fs@ == absorb_state(old(self).fs@, r->0@) && final(self).pos == old(
                self,
            ).pos + len,
            old(self).pos + len > old(self).narg@.len() ==> r is None && *final(self) == *old(
                self,
            ),
    {
        if len > self.narg.len() || self.pos > self.narg.len() - len {
            return None;
        }
        let n = self.narg.len();
        let mut msg: Vec<u8> = Vec::new();
        let mut i: usize = 0;
        while i < len
            invariant
                i <= len,
                self == old(self),
                old(self).pos + len <= self.narg@.len(),
                self.narg@.len() <= usize::MAX,
                msg@ == self.narg@.subrange(self.pos as int, self.pos + i),
            decreases len - i,
        {
            proof {
                assert(self.narg@.subrange(self.pos as int, self.pos + i).push(
                    self.narg@[self.pos + i],
                ) =~= self.narg@.subrange(self.pos as int, self.pos + i + 1));
            }
            msg.push(self.narg[self.pos + i]);
            i = i + 1;
        }
        self.fs = chain2(TAG_ABSORB, &self.fs, &msg);
        self.pos = self.pos + len;
        Some(msg)
    }

    /// Draws a field element challenge.
    pub fn squeeze_felt(&mut self) -> (r: u64)
        ensures
            r == felt_of_state(old(self).fs@),
            final(self).fs@ == squeeze_next(old(self).fs@),
            final(self).narg@ == old(self).narg@,
            final(self).pos == old(self).pos,
            r < P,
    {
        squeeze_felt_state(&mut self.fs)
    }

    /// Draws a query index below `bound`.
    pub fn squeeze_index(&mut self, bound: u64) -> (r: u64)
        requires
            bound > 0,
        ensures
            r == index_of_state(old(self).fs@, bound),
            final(self).fs@ == squeeze_next(old(self).fs@),
            final(self).narg@ == old(self).narg@,
            final(self).pos == old(self).pos,
            r < bound,
    {
        squeeze_index_state(&mut self.fs, bound)
    }

    /// Draws the 32-byte challenge that seeds a round's proof-of-work.
    pub fn squeeze_challenge(&mut self) -> (r: Vec<u8>)
        ensures
            r@ == challenge_bytes_of(old(self).fs@),
            final(self).fs@ == squeeze_next(old(self).fs@),
            final(self).narg@ == old(self).narg@,
            final(self).pos == old(self).pos,
            r@.len() == 32,
    {
        squeeze_challenge_state(&mut self.fs)
    }

    /// Whether the whole message string has been consumed.
    pub fn fully_read(&self) -> (r: bool)
        ensures
            r == (self.pos == self.narg@.len()),
    {
        self.pos == self.narg.len()
    }
}

} // verus!
