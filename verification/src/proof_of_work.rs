//! Proofs of work: a nonce whose hash, together with the hash of the
//! computation's result, starts with enough zero bits.

use crate::hashing::{append_hex, hex_of, le_bytes_u64, push_all, push_le_u64, sha256, sha256_digest};
use crate::types::ProofOfWork;
use vstd::prelude::*;
use vstd::string::StrSliceExecFns;
use vstd::utf8::encode_utf8;

verus! {

/// How many zero bits a lowercase hex digit starts with (four bits).
pub open spec fn digit_zero_bits(c: char) -> nat {
    if c == '0' {
        4
    } else if c == '1' {
        3
    } else if c == '2' || c == '3' {
        2
    } else if c == '4' || c == '5' || c == '6' || c == '7' {
        1
    } else {
        0
    }
}

/// How many zero bits the number written in hex by `s` starts with: four
/// per leading '0', plus those of the first other digit.
pub open spec fn leading_zeros(s: Seq<char>) -> nat
    decreases s.len(),
{
    if s.len() == 0 {
        0
    } else if s[0] != '0' {
        digit_zero_bits(s[0])
    } else {
        4 + leading_zeros(s.drop_first())
    }
}

/// The hex hash of a computation hash (as UTF-8 text) followed by a nonce
/// (eight bytes, least significant first).
pub open spec fn nonce_hash(computation_hash: Seq<char>, nonce: u64) -> Seq<char> {
    hex_of(sha256(encode_utf8(computation_hash) + le_bytes_u64(nonce)))
}

/// The proof is genuine: its hash is the nonce hash of its computation hash
/// and nonce, and starts with at least as many zero bits as its difficulty.
pub open spec fn meets_difficulty(p: ProofOfWork) -> bool {
    &&& p.hash@ == nonce_hash(p.computation_hash@, p.nonce)
    &&& leading_zeros(p.hash@) >= p.difficulty
}

/// `p` proves work on `data` at `difficulty`: its computation hash is the
/// hex hash of the data, its hash is the nonce hash of its nonce and meets
/// the difficulty, and no smaller nonce meets it.
pub open spec fn proves_work(p: ProofOfWork, data: Seq<u8>, difficulty: u32) -> bool {
    &&& p.difficulty == difficulty
    &&& p.computation_hash@ == hex_of(sha256(data))
    &&& p.hash@ == nonce_hash(p.computation_hash@, p.nonce)
    &&& leading_zeros(p.hash@) >= difficulty
    &&& forall|n: u64| n < p.nonce ==> leading_zeros(#[trigger] nonce_hash(p.computation_hash@, n)) < difficulty
}

proof fn lemma_leading_zeros(s: Seq<char>, i: int)
    requires
        0 <= i <= s.len(),
        forall|j: int| 0 <= j < i ==> s[j] == '0',
        i == s.len() || s[i] != '0',
    ensures
        leading_zeros(s) == 4 * i + if i < s.len() {
            digit_zero_bits(s[i])
        } else {
            0
        },
    decreases i,
{
    if i > 0 {
        let t = s.drop_first();
        assert forall|j: int| 0 <= j < i - 1 implies t[j] == '0' by {
            assert(t[j] == s[j + 1]);
        }
        if i - 1 < t.len() {
            assert(t[i - 1] == s[i]);
        }
        lemma_leading_zeros(t, i - 1);
    }
}

fn digit_zero_bits_exec(c: char) -> (n: usize)
    ensures
        n == digit_zero_bits(c),
{
    if c == '0' {
        4
    } else if c == '1' {
        3
    } else if c == '2' || c == '3' {
        2
    } else if c == '4' || c == '5' || c == '6' || c == '7' {
        1
    } else {
        0
    }
}

/// Counts the zero bits at the start of the number written in hex by `s`.
pub fn count_leading_zeros(s: &str) -> (n: usize)
    requires
        4 * s@.len() + 4 <= usize::MAX,
    ensures
        n == leading_zeros(s@),
{
    let len = s.unicode_len();
    let mut i: usize = 0;
    while i < len && s.get_char(i) == '0'
        invariant
            len == s@.len(),
            4 * len + 4 <= usize::MAX,
            i <= len,
            forall|j: int| 0 <= j < i ==> s@[j] == '0',
        decreases len - i,
    {
        i = i + 1;
    }
    proof {
        lemma_leading_zeros(s@, i as int);
    }
    if i < len {
        4 * i + digit_zero_bits_exec(s.get_char(i))
    } else {
        4 * i
    }
}

/// The hex hash of a computation hash followed by a nonce.
pub fn compute_nonce_hash(computation_hash: &String, nonce: u64) -> (h: String)
    ensures
        h@ == nonce_hash(computation_hash@, nonce),
        h@.len() == 64,
{
    let mut input: Vec<u8> = Vec::new();
    push_all(&mut input, computation_hash.as_str().as_bytes());
    push_le_u64(&mut input, nonce);
    let digest = sha256_digest(input.as_slice());
    let mut h = String::new();
    append_hex(&mut h, digest.as_slice());
    proof {
        assert(input@ =~= encode_utf8(computation_hash@) + le_bytes_u64(nonce));
        assert(h@ =~= nonce_hash(computation_hash@, nonce));
        crate::hashing::lemma_hex_len(digest@);
    }
    h
}

/// Whether the proof is genuine: recomputes the hash of its computation
/// hash and nonce, compares it with the proof's hash, and checks that it
/// starts with at least `difficulty` zero bits.
pub fn check_difficulty(proof: &ProofOfWork) -> (b: bool)
    ensures
        b == meets_difficulty(*proof),
{
    let expected = compute_nonce_hash(&proof.computation_hash, proof.nonce);
    if !(proof.hash == expected) {
        return false;
    }
    let leading = count_leading_zeros(proof.hash.as_str());
    leading >= proof.difficulty as usize
}

} // verus!
