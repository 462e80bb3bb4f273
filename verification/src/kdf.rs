use vstd::prelude::*;
use vstd::arithmetic::div_mod::lemma_fundamental_div_mod;
use vstd::arithmetic::div_mod::lemma_fundamental_div_mod_converse;
use vstd::arithmetic::div_mod::lemma_mod_bound;
use vstd::arithmetic::mul::lemma_mul_inequality;
use vstd::slice::slice_to_vec;
use crate::bhash::bhash;
use crate::bhash::bhash_spec;
use crate::bhash::lemma_bhash_spec_len;
use crate::bytes::be_bytes_of;
use crate::bytes::be32_bytes;
use crate::sha::sha512_of;
use crate::sha::Hasher;

verus! {

/// The keyed-MAC adaptor that lets the PBKDF2 scheme drive `bhash`: it
/// holds the 64-byte password digest as its key, accumulates arbitrary
/// input into a running SHA-512, and finalizes to
/// `bhash(key, SHA-512(input))`.
pub struct Bhash {
    sha2_pass: Vec<u8>,
    salt: Hasher,
}

impl Bhash {
    /// The 64-byte key the adaptor was constructed with.
    pub closed spec fn key(self) -> Seq<u8> {
        self.sha2_pass@
    }

    /// The input bytes accumulated since construction or the last reset.
    pub closed spec fn fed(self) -> Seq<u8> {
        self.salt.fed()
    }

    /// The key has the fixed MAC key size of 64 bytes.
    pub closed spec fn wf(self) -> bool {
        self.sha2_pass@.len() == 64
    }

    /// A fresh adaptor keyed by a 64-byte key, with no input accumulated.
    pub fn new(key: &[u8]) -> (m: Bhash)
        requires
            key@.len() == 64,
        ensures
            m.wf(),
            m.key() == key@,
            m.fed() == Seq::<u8>::empty(),
    {
        Bhash { sha2_pass: slice_to_vec(key), salt: Hasher::new() }
    }

    /// Appends `data` to the accumulated input.
    pub fn input(&mut self, data: &[u8])
        requires
            old(self).wf(),
        ensures
            final(self).wf(),
            final(self).key() == old(self).key(),
            final(self).fed() == old(self).fed() + data@,
    {
        self.salt.update(data);
    }

    /// Clears the accumulated input, keeping the key: the state equals that
    /// of a fresh construction with the same key.
    pub fn reset(&mut self)
        requires
            old(self).wf(),
        ensures
            final(self).wf(),
            final(self).key() == old(self).key(),
            final(self).fed() == Seq::<u8>::empty(),
    {
        self.salt.reset();
    }

    /// The 32-byte MAC output: `bhash` of the key and the SHA-512 digest of
    /// the accumulated input.
    pub fn result(self) -> (r: Vec<u8>)
        requires
            self.wf(),
        ensures
            r@ == bhash_spec(self.key(), sha512_of(self.fed())),
            r@.len() == 32,
    {
        let digest = self.salt.finalize();
        bhash(self.sha2_pass.as_slice(), digest.as_slice())
    }
}

/// The pseudo-random function iterated by the derivation: `bhash` keyed by
/// `key` over the SHA-512 digest of `msg`.
pub open spec fn prf(key: Seq<u8>, msg: Seq<u8>) -> Seq<u8> {
    bhash_spec(key, sha512_of(msg))
}

/// The `j`-th PBKDF2 iterate for block number `blk` (1-based): the first
/// applies the PRF to the salt followed by the big-endian block number, and
/// each later one applies the PRF to its predecessor.
pub open spec fn round_u(key: Seq<u8>, salt: Seq<u8>, blk: u32, j: nat) -> Seq<u8>
    decreases j,
{
    if j <= 1 {
        prf(key, salt + be_bytes_of(blk))
    } else {
        prf(key, round_u(key, salt, blk, (j - 1) as nat))
    }
}

/// Pointwise exclusive-or of two equal-length byte strings.
pub open spec fn xor_bytes(a: Seq<u8>, b: Seq<u8>) -> Seq<u8> {
    Seq::new(a.len(), |i: int| a[i] ^ b[i])
}

/// One 32-byte PBKDF2 block: the exclusive-or of the first `rounds`
/// iterates for block number `blk`.
pub open spec fn block_mat(key: Seq<u8>, salt: Seq<u8>, blk: u32, rounds: nat) -> Seq<u8>
    decreases rounds,
{
    if rounds <= 1 {
        round_u(key, salt, blk, 1)
    } else {
        xor_bytes(block_mat(key, salt, blk, (rounds - 1) as nat), round_u(key, salt, blk, rounds))
    }
}

/// The intermediate PBKDF2 material: `blocks` consecutive 32-byte blocks,
/// block numbers counted from 1.
pub open spec fn pbkdf2_mat(key: Seq<u8>, salt: Seq<u8>, rounds: nat, blocks: nat) -> Seq<u8>
    decreases blocks,
{
    if blocks == 0 {
        Seq::empty()
    } else {
        pbkdf2_mat(key, salt, rounds, (blocks - 1) as nat) + block_mat(
            key,
            salt,
            blocks as u32,
            rounds,
        )
    }
}

pub proof fn lemma_round_u_len(key: Seq<u8>, salt: Seq<u8>, blk: u32, j: nat)
    ensures
        round_u(key, salt, blk, j).len() == 32,
    decreases j,
{
    if j <= 1 {
        lemma_bhash_spec_len(key, sha512_of(salt + be_bytes_of(blk)));
    } else {
        lemma_bhash_spec_len(key, sha512_of(round_u(key, salt, blk, (j - 1) as nat)));
    }
}

pub proof fn lemma_block_mat_len(key: Seq<u8>, salt: Seq<u8>, blk: u32, rounds: nat)
    ensures
        block_mat(key, salt, blk, rounds).len() == 32,
    decreases rounds,
{
    if rounds <= 1 {
        lemma_round_u_len(key, salt, blk, 1);
    } else {
        lemma_block_mat_len(key, salt, blk, (rounds - 1) as nat);
    }
}

/// How many 32-byte blocks cover `len` output bytes.
pub open spec fn stride_of(len: nat) -> nat {
    (len + 31) / 32
}

/// A requested output length too large for the 32-bit PBKDF2 block counter
/// or for the intermediate buffer.
pub open spec fn oversize(len: nat) -> bool {
    stride_of(len) > u32::MAX as nat || stride_of(len) * 32 > usize::MAX as nat
}

/// What `bcrypt_pbkdf` stores in an output buffer of length `len`: byte `i`
/// is taken from the intermediate PBKDF2 material at block `i mod stride`,
/// offset `i div stride` — the de-interleaving transpose peculiar to this
/// construction.
pub open spec fn derived(pass: Seq<u8>, salt: Seq<u8>, rounds: nat, len: nat) -> Seq<u8> {
    let stride = stride_of(len) as int;
    let mat = pbkdf2_mat(sha512_of(pass), salt, rounds, stride_of(len));
    Seq::new(len, |i: int| mat[(i % stride) * 32 + i / stride])
}

/// Deriving key material is deterministic: two derivations from the same
/// passphrase, salt, round count and length yield the same bytes.
pub proof fn lemma_deterministic(
    pass: Seq<u8>,
    salt: Seq<u8>,
    rounds: nat,
    len: nat,
    a: Seq<u8>,
    b: Seq<u8>,
)
    requires
        a == derived(pass, salt, rounds, len),
        b == derived(pass, salt, rounds, len),
    ensures
        a == b,
{
}

/// The derived material has exactly the requested length, whatever its
/// relation to the 32-byte block size.
pub proof fn lemma_derived_len(pass: Seq<u8>, salt: Seq<u8>, rounds: nat, len: nat)
    ensures
        derived(pass, salt, rounds, len).len() == len,
{
}

/// Why a derivation request was rejected.
#[derive(Clone, Copy, Debug, PartialEq, Eq)]
pub enum KdfError {
    /// The round count was zero; the iteration count must be positive.
    ZeroRounds,
    /// The output buffer was empty; a zero-length derivation is refused
    /// rather than silently succeeding.
    EmptyOutput,
    /// The output buffer was too long for the 32-bit block counter or the
    /// intermediate buffer.
    OutputTooLong,
}

fn xor_with(acc: &Vec<u8>, u: &Vec<u8>) -> (r: Vec<u8>)
    requires
        acc@.len() == u@.len(),
    ensures
        r@ == xor_bytes(acc@, u@),
{
    let mut r: Vec<u8> = Vec::new();
    let mut i: usize = 0;
    while i < acc.len()
        invariant
            i <= acc@.len(),
            acc@.len() == u@.len(),
            r@.len() == i,
            forall|k: int| 0 <= k < i ==> r@[k] == (acc@[k] ^ u@[k]),
        decreases acc@.len() - i,
    {
        r.push(acc[i] ^ u[i]);
        i = i + 1;
    }
    proof {
        assert(r@ =~= xor_bytes(acc@, u@));
    }
    r
}

fn compute_block(key: &Vec<u8>, salt: &[u8], blk: u32, rounds: u32) -> (out: Vec<u8>)
    requires
        key@.len() == 64,
        rounds >= 1,
    ensures
        out@ == block_mat(key@, salt@, blk, rounds as nat),
        out@.len() == 32,
{
    let mut mac = Bhash::new(key.as_slice());
    mac.input(salt);
    let ctr = be32_bytes(blk);
    mac.input(ctr.as_slice());
    proof {
        assert(Seq::<u8>::empty() + salt@ + ctr@ =~= salt@ + be_bytes_of(blk));
    }
    let u_first = mac.result();
    assert(u_first@ == round_u(key@, salt@, blk, 1));
    let mut u = u_first;
    let mut acc = slice_to_vec(u.as_slice());
    let mut j: u32 = 1;
    while j < rounds
        invariant
            1 <= j <= rounds,
            key@.len() == 64,
            u@ == round_u(key@, salt@, blk, j as nat),
            u@.len() == 32,
            acc@ == block_mat(key@, salt@, blk, j as nat),
            acc@.len() == 32,
        decreases rounds - j,
    {
        let mut mac2 = Bhash::new(key.as_slice());
        mac2.input(u.as_slice());
        proof {
            assert(Seq::<u8>::empty() + u@ =~= u@);
        }
        let u_next = mac2.result();
        assert(u_next@ == round_u(key@, salt@, blk, (j + 1) as nat));
        acc = xor_with(&acc, &u_next);
        u = u_next;
        j = j + 1;
        proof {
            lemma_block_mat_len(key@, salt@, blk, j as nat);
        }
    }
    proof {
        lemma_block_mat_len(key@, salt@, blk, rounds as nat);
    }
    acc
}

fn derive_blocks(key: &Vec<u8>, salt: &[u8], rounds: u32, blocks: u32) -> (out: Vec<u8>)
    requires
        key@.len() == 64,
        rounds >= 1,
        blocks as nat * 32 <= usize::MAX as nat,
    ensures
        out@ == pbkdf2_mat(key@, salt@, rounds as nat, blocks as nat),
        out@.len() == blocks as nat * 32,
{
    let mut out: Vec<u8> = Vec::new();
    let mut b: u32 = 0;
    while b < blocks
        invariant
            b <= blocks,
            key@.len() == 64,
            rounds >= 1,
            blocks as nat * 32 <= usize::MAX as nat,
            out@ == pbkdf2_mat(key@, salt@, rounds as nat, b as nat),
            out@.len() == b as nat * 32,
        decreases blocks - b,
    {
        let mut block = compute_block(key, salt, b + 1, rounds);
        out.append(&mut block);
        b = b + 1;
        assert(out@ == pbkdf2_mat(key@, salt@, rounds as nat, b as nat));
    }
    out
}

proof fn lemma_stride_exec(len: int)
    requires
        len >= 1,
    ensures
        (len - 1) / 32 + 1 == (len + 31) / 32,
{
    lemma_fundamental_div_mod(len - 1, 32);
    lemma_mod_bound(len - 1, 32);
    lemma_fundamental_div_mod_converse(len + 31, 32, (len - 1) / 32 + 1, (len - 1) % 32);
}

proof fn lemma_len_le_stride(len: int)
    requires
        len >= 0,
    ensures
        len <= ((len + 31) / 32) * 32,
{
    lemma_fundamental_div_mod(len + 31, 32);
    lemma_mod_bound(len + 31, 32);
}

proof fn lemma_mul32_cmp(s: int, m: int)
    requires
        s >= 0,
        m >= 0,
    ensures
        (s > m / 32) <==> (s * 32 > m),
{
    lemma_fundamental_div_mod(m, 32);
    lemma_mod_bound(m, 32);
    if s > m / 32 {
        lemma_mul_inequality(m / 32 + 1, s, 32);
    } else {
        lemma_mul_inequality(s, m / 32, 32);
    }
}

proof fn lemma_transpose_index(i: int, stride: int)
    requires
        stride >= 1,
        0 <= i,
        i < stride * 32,
    ensures
        0 <= (i % stride) * 32 + i / stride,
        (i % stride) * 32 + i / stride < stride * 32,
{
    lemma_fundamental_div_mod(i, stride);
    lemma_mod_bound(i, stride);
    assert(i / stride >= 0) by {
        if i / stride < 0 {
            lemma_mul_inequality(i / stride, -1, stride);
        }
    };
    assert(i / stride < 32) by {
        if i / stride >= 32 {
            lemma_mul_inequality(32, i / stride, stride);
        }
    };
    lemma_mul_inequality(i % stride, stride - 1, 32);
}

/// Derives `output.len()` bytes of key material from a passphrase and a
/// salt at cost `rounds`, overwriting the whole output buffer. Embedded NUL
/// bytes in the passphrase and the salt are significant. A zero round
/// count, an empty output buffer, and an output length too large for the
/// 32-bit block counter are rejected, and on any error the buffer is left
/// untouched.
pub fn bcrypt_pbkdf(passphrase: &[u8], salt: &[u8], rounds: u32, output: &mut Vec<u8>) -> (r:
    Result<(), KdfError>)
    ensures
        rounds == 0 ==> r == Err::<(), KdfError>(KdfError::ZeroRounds) && final(output)@ == old(
            output,
        )@,
        rounds != 0 && old(output)@.len() == 0 ==> r == Err::<(), KdfError>(KdfError::EmptyOutput)
            && final(output)@ == old(output)@,
        rounds != 0 && old(output)@.len() > 0 && oversize(old(output)@.len() as nat) ==> r
            == Err::<(), KdfError>(KdfError::OutputTooLong) && final(output)@ == old(output)@,
        rounds != 0 && old(output)@.len() > 0 && !oversize(old(output)@.len() as nat) ==> r
            == Ok::<(), KdfError>(()) && final(output)@ == derived(
            passphrase@,
            salt@,
            rounds as nat,
            old(output)@.len() as nat,
        ) && final(output)@.len() == old(output)@.len(),
{
    if rounds == 0 {
        return Err(KdfError::ZeroRounds);
    }
    let len = output.len();
    if len == 0 {
        return Err(KdfError::EmptyOutput);
    }
    let stride = (len - 1) / 32 + 1;
    proof {
        lemma_stride_exec(len as int);
        assert(stride == stride_of(len as nat));
    }
    if stride > (u32::MAX as usize) {
        return Err(KdfError::OutputTooLong);
    }
    if stride > usize::MAX / 32 {
        proof {
            lemma_mul32_cmp(stride as int, usize::MAX as int);
        }
        return Err(KdfError::OutputTooLong);
    }
    proof {
        lemma_mul32_cmp(stride as int, usize::MAX as int);
        assert(!oversize(len as nat));
    }

    let mut h = Hasher::new();
    h.update(passphrase);
    proof {
        assert(Seq::<u8>::empty() + passphrase@ =~= passphrase@);
    }
    let key = h.finalize();

    let generated = derive_blocks(&key, salt, rounds, stride as u32);
    proof {
        lemma_len_le_stride(len as int);
        assert(len <= stride * 32);
    }
    let ghost goal = derived(passphrase@, salt@, rounds as nat, len as nat);
    proof {
        lemma_derived_len(passphrase@, salt@, rounds as nat, len as nat);
    }
    let mut result: Vec<u8> = Vec::new();
    let mut i: usize = 0;
    while i < len
        invariant
            i <= len,
            1 <= stride,
            stride == stride_of(len as nat),
            len <= stride * 32,
            stride * 32 <= usize::MAX,
            generated@ == pbkdf2_mat(sha512_of(passphrase@), salt@, rounds as nat, stride as nat),
            generated@.len() == stride * 32,
            goal == derived(passphrase@, salt@, rounds as nat, len as nat),
            goal.len() == len,
            result@.len() == i,
            forall|k: int| 0 <= k < i ==> result@[k] == goal[k],
        decreases len - i,
    {
        proof {
            lemma_transpose_index(i as int, stride as int);
        }
        let idx = (i % stride) * 32 + i / stride;
        result.push(generated[idx]);
        i = i + 1;
    }
    proof {
        assert(result@ =~= goal);
    }
    *output = result;
    Ok(())
}

} // verus!
