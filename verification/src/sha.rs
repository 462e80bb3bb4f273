use vstd::prelude::*;
use sha2::Digest;

verus! {

/// The 64-byte SHA-512 digest of `data`. The digest depends on the input
/// bytes alone.
pub uninterp spec fn sha512_of(data: Seq<u8>) -> Seq<u8>;

#[verifier::external_type_specification]
#[verifier::external_body]
pub struct ExSha512(sha2::Sha512);

/// Relies on `Sha512::new`: a fresh SHA-512 state with nothing fed yet.
#[verifier::external_body]
fn sha512_new() -> sha2::Sha512 {
    sha2::Sha512::new()
}

/// A running SHA-512 computation together with the record of the bytes fed
/// to it. Every mutation goes through the methods below, which keep the
/// record in step with the live hash state.
pub struct Hasher {
    inner: sha2::Sha512,
    fed: Ghost<Seq<u8>>,
}

impl Hasher {
    /// The bytes accumulated since construction or the last reset.
    pub closed spec fn fed(self) -> Seq<u8> {
        self.fed@
    }

    /// A hasher with nothing fed yet.
    pub fn new() -> (h: Hasher)
        ensures
            h.fed() == Seq::<u8>::empty(),
    {
        Hasher { inner: sha512_new(), fed: Ghost(Seq::empty()) }
    }

    /// Relies on `Digest::update` for `Sha512`: appends `data` to the stream
    /// being digested.
    #[verifier::external_body]
    pub fn update(&mut self, data: &[u8])
        ensures
            final(self).fed() == old(self).fed() + data@,
    {
        self.inner.update(data);
    }

    /// Relies on `Digest::reset` for `Sha512`: returns the state to that of
    /// a fresh construction, discarding everything fed so far.
    #[verifier::external_body]
    pub fn reset(&mut self)
        ensures
            final(self).fed() == Seq::<u8>::empty(),
    {
        self.inner.reset();
    }

    /// Relies on `Digest::finalize` for `Sha512`: the 64-byte SHA-512 digest
    /// of everything fed since construction or the last reset.
    #[verifier::external_body]
    pub fn finalize(self) -> (r: Vec<u8>)
        ensures
            r@ == sha512_of(self.fed()),
            r@.len() == 64,
    {
        self.inner.finalize().as_slice().to_vec()
    }
}

} // verus!
