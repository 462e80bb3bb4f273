use vstd::prelude::*;

verus! {

/// One keying step applied to a Blowfish key schedule: either the salted
/// expansion that mixes a salt and a key in one pass, or the plain expansion
/// keyed by a single byte string.
pub enum KeyOp {
    Salted { salt: Seq<u8>, key: Seq<u8> },
    Expand { key: Seq<u8> },
}

/// Holds the key schedule of the `blowfish` crate's cipher. The type is
/// opaque here; what it computes is captured by the contracts of the
/// `Cipher` methods below.
#[verifier::external_body]
struct BlowfishState {
    inner: blowfish::Blowfish,
}

/// The two ciphertext halves produced by one 64-bit Blowfish ECB encryption
/// of `(l, r)` under the key schedule reached from the standard initial
/// state by applying `ops` in order. The key schedule is a pure function of
/// the keying steps applied to it, so this result depends on its arguments
/// alone.
pub uninterp spec fn bf_encrypt(ops: Seq<KeyOp>, l: u32, r: u32) -> (u32, u32);

/// Relies on `Blowfish::bc_init_state`: the standard Blowfish initial
/// P-array and S-boxes, before any keying step.
#[verifier::external_body]
fn blowfish_init() -> BlowfishState {
    BlowfishState { inner: blowfish::Blowfish::bc_init_state() }
}

/// A Blowfish key schedule together with the record of the keying steps that
/// produced it. Every mutation goes through the methods below, which keep
/// the record in step with the live cipher state.
pub struct Cipher {
    state: BlowfishState,
    trace: Ghost<Seq<KeyOp>>,
}

impl Cipher {
    /// The keying steps applied since initialization.
    pub closed spec fn ops(self) -> Seq<KeyOp> {
        self.trace@
    }

    /// A cipher in the standard Blowfish initial state.
    pub fn init() -> (c: Cipher)
        ensures
            c.ops() == Seq::<KeyOp>::empty(),
    {
        Cipher { state: blowfish_init(), trace: Ghost(Seq::empty()) }
    }

    /// Relies on `Blowfish::salted_expand_key`: one salted key-schedule pass
    /// over the P-array and S-boxes, keyed by `key` and mixing in `salt`. It
    /// reads both slices cyclically, so each must be non-empty.
    #[verifier::external_body]
    pub fn salted_expand_key(&mut self, salt: &[u8], key: &[u8])
        requires
            salt@.len() >= 1,
            key@.len() >= 1,
        ensures
            final(self).ops() == old(self).ops().push(
                (KeyOp::Salted { salt: salt@, key: key@ }),
            ),
    {
        self.state.inner.salted_expand_key(salt, key);
    }

    /// Relies on `Blowfish::bc_expand_key`: one standard key-schedule pass
    /// keyed by `key`. It reads the slice cyclically, so it must be
    /// non-empty.
    #[verifier::external_body]
    pub fn expand_key(&mut self, key: &[u8])
        requires
            key@.len() >= 1,
        ensures
            final(self).ops() == old(self).ops().push((KeyOp::Expand { key: key@ })),
    {
        self.state.inner.bc_expand_key(key);
    }

    /// Relies on `Blowfish::bc_encrypt`: one 64-bit ECB block encryption
    /// under the current key schedule, which it leaves unchanged.
    #[verifier::external_body]
    pub fn encrypt(&self, l: u32, r: u32) -> (res: (u32, u32))
        ensures
            res == bf_encrypt(self.ops(), l, r),
    {
        let lr = self.state.inner.bc_encrypt([l, r]);
        (lr[0], lr[1])
    }
}

} // verus!
