use vstd::prelude::*;
use crate::bytes::le_bytes_of;
use crate::bytes::le32_push;
use crate::cipher::bf_encrypt;
use crate::cipher::Cipher;
use crate::cipher::KeyOp;

verus! {

/// The eight big-endian words of the 32-byte ASCII seed
/// `OxychromaticBlowfishSwatDynamite` that `bhash` scrambles.
pub open spec fn seed_words() -> Seq<u32> {
    seq![
        0x4F787963u32,
        0x68726F6Du32,
        0x61746963u32,
        0x426C6F77u32,
        0x66697368u32,
        0x53776174u32,
        0x44796E61u32,
        0x6D697465u32,
    ]
}

/// The keying steps performed by `bhash` after the initial salted expansion:
/// `n` further rounds, each expanding the schedule once with the salt and
/// once with the password.
pub open spec fn keyed_ops_upto(salt: Seq<u8>, pass: Seq<u8>, n: nat) -> Seq<KeyOp>
    decreases n,
{
    if n == 0 {
        seq![(KeyOp::Salted { salt: salt, key: pass })]
    } else {
        keyed_ops_upto(salt, pass, (n - 1) as nat).push((KeyOp::Expand { key: salt })).push(
            (KeyOp::Expand { key: pass }),
        )
    }
}

/// The full `bhash` key schedule: one salted expansion keyed by the password
/// and mixing in the salt, then 64 alternating salt/password expansions.
pub open spec fn keyed_ops(salt: Seq<u8>, pass: Seq<u8>) -> Seq<KeyOp> {
    keyed_ops_upto(salt, pass, 64)
}

/// One scrambling pass: each adjacent pair of words, in index order, is
/// replaced by its encryption as one 64-bit block.
pub open spec fn enc_pair_words(ops: Seq<KeyOp>, w: Seq<u32>) -> Seq<u32> {
    Seq::new(
        w.len(),
        |i: int|
            if i % 2 == 0 {
                bf_encrypt(ops, w[i], w[i + 1]).0
            } else {
                bf_encrypt(ops, w[i - 1], w[i]).1
            },
    )
}

/// The seed words after `n` scrambling passes under the key schedule `ops`.
pub open spec fn scrambled(ops: Seq<KeyOp>, n: nat) -> Seq<u32>
    decreases n,
{
    if n == 0 {
        seed_words()
    } else {
        enc_pair_words(ops, scrambled(ops, (n - 1) as nat))
    }
}

pub proof fn lemma_scrambled_len(ops: Seq<KeyOp>, n: nat)
    ensures
        scrambled(ops, n).len() == 8,
    decreases n,
{
    if n > 0 {
        lemma_scrambled_len(ops, (n - 1) as nat);
    }
}

/// Each word serialized to four little-endian bytes, in word order.
pub open spec fn le_flatten(ws: Seq<u32>) -> Seq<u8>
    decreases ws.len(),
{
    if ws.len() == 0 {
        Seq::empty()
    } else {
        le_flatten(ws.drop_last()) + le_bytes_of(ws.last())
    }
}

pub proof fn lemma_le_flatten_len(ws: Seq<u32>)
    ensures
        le_flatten(ws).len() == 4 * ws.len(),
    decreases ws.len(),
{
    if ws.len() > 0 {
        lemma_le_flatten_len(ws.drop_last());
    }
}

/// What `bhash` computes: the seed constant scrambled for 64 passes under
/// the key schedule derived from the salt and the password, serialized
/// little-endian.
pub open spec fn bhash_spec(pass: Seq<u8>, salt: Seq<u8>) -> Seq<u8> {
    le_flatten(scrambled(keyed_ops(salt, pass), 64))
}

pub proof fn lemma_bhash_spec_len(pass: Seq<u8>, salt: Seq<u8>)
    ensures
        bhash_spec(pass, salt).len() == 32,
{
    lemma_scrambled_len(keyed_ops(salt, pass), 64);
    lemma_le_flatten_len(scrambled(keyed_ops(salt, pass), 64));
}

/// The Blowfish-based hash at the core of the derivation: stretches a
/// 64-byte password digest and a 64-byte salt digest into 32 bytes.
pub fn bhash(sha2_pass: &[u8], sha2_salt: &[u8]) -> (out: Vec<u8>)
    requires
        sha2_pass@.len() == 64,
        sha2_salt@.len() == 64,
    ensures
        out@ == bhash_spec(sha2_pass@, sha2_salt@),
        out@.len() == 32,
{
    let mut c = Cipher::init();
    c.salted_expand_key(sha2_salt, sha2_pass);
    assert(c.ops() == keyed_ops_upto(sha2_salt@, sha2_pass@, 0));
    let mut round: usize = 0;
    while round < 64
        invariant
            round <= 64,
            sha2_pass@.len() == 64,
            sha2_salt@.len() == 64,
            c.ops() == keyed_ops_upto(sha2_salt@, sha2_pass@, round as nat),
        decreases 64 - round,
    {
        c.expand_key(sha2_salt);
        c.expand_key(sha2_pass);
        round = round + 1;
    }
    let ghost ops = keyed_ops(sha2_salt@, sha2_pass@);
    assert(c.ops() == ops);

    let mut cdata: Vec<u32> = Vec::new();
    cdata.push(0x4F787963);
    cdata.push(0x68726F6D);
    cdata.push(0x61746963);
    cdata.push(0x426C6F77);
    cdata.push(0x66697368);
    cdata.push(0x53776174);
    cdata.push(0x44796E61);
    cdata.push(0x6D697465);
    assert(cdata@ =~= seed_words());

    let mut pass_num: usize = 0;
    while pass_num < 64
        invariant
            pass_num <= 64,
            c.ops() == ops,
            cdata@ == scrambled(ops, pass_num as nat),
        decreases 64 - pass_num,
    {
        proof {
            lemma_scrambled_len(ops, pass_num as nat);
        }
        let ghost prev = cdata@;
        let mut next: Vec<u32> = Vec::new();
        let mut p: usize = 0;
        while p < 4
            invariant
                p <= 4,
                c.ops() == ops,
                cdata@ == prev,
                prev.len() == 8,
                next@.len() == 2 * p,
                forall|i: int| 0 <= i < 2 * p ==> next@[i] == enc_pair_words(ops, prev)[i],
            decreases 4 - p,
        {
            let lr = c.encrypt(cdata[2 * p], cdata[2 * p + 1]);
            next.push(lr.0);
            next.push(lr.1);
            p = p + 1;
        }
        assert(next@ =~= enc_pair_words(ops, prev));
        cdata = next;
        pass_num = pass_num + 1;
    }

    let mut out: Vec<u8> = Vec::new();
    proof {
        lemma_scrambled_len(ops, 64);
        assert(cdata@.take(0) =~= Seq::<u32>::empty());
        assert(le_flatten(cdata@.take(0)) == Seq::<u8>::empty());
    }
    let mut i: usize = 0;
    while i < 8
        invariant
            i <= 8,
            cdata@.len() == 8,
            cdata@ == scrambled(ops, 64),
            out@ == le_flatten(cdata@.take(i as int)),
        decreases 8 - i,
    {
        proof {
            assert(cdata@.take(i as int + 1).drop_last() =~= cdata@.take(i as int));
        }
        le32_push(&mut out, cdata[i]);
        i = i + 1;
    }
    proof {
        assert(cdata@.take(8) =~= cdata@);
        lemma_bhash_spec_len(sha2_pass@, sha2_salt@);
    }
    out
}

} // verus!
