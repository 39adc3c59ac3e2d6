use vstd::prelude::*;
use vstd::bytes::{spec_u64_to_le_bytes, u64_to_le_bytes};

verus! {

/// The SipHash-1-3 digest, with both keys zero, of `bytes`.
pub uninterp spec fn sip13_digest(bytes: Seq<u8>) -> u64;

/// `siphasher::sip::SipHasher13::new().hash(bytes)`: SipHash-1-3 keyed with
/// (0, 0) over `bytes`. The digest is named, not restated: it depends on the
/// bytes alone.
#[verifier::external_body]
fn sip13(bytes: &[u8]) -> (r: u64)
    ensures
        r == sip13_digest(bytes@),
{
    siphasher::sip::SipHasher13::new().hash(bytes)
}

/// The item hasher of the fingerprint tables: SipHash-1-3 with fixed keys
/// over everything written, with lengths written as 8 little-endian bytes
/// whatever the width of `usize`. Hashing must never change while snapshots
/// written with it exist.
#[derive(Clone)]
pub struct FixedHasher {
    written: Vec<u8>,
}

impl View for FixedHasher {
    type V = Seq<u8>;

    closed spec fn view(&self) -> Seq<u8> {
        self.written@
    }
}

impl FixedHasher {
    /// A hasher over nothing written yet.
    pub fn new() -> (r: Self)
        ensures
            r@ == Seq::<u8>::empty(),
    {
        FixedHasher { written: Vec::new() }
    }

    /// Append `bytes` to what is hashed.
    pub fn write(&mut self, bytes: &[u8])
        ensures
            final(self)@ == old(self)@ + bytes@,
    {
        self.written.extend_from_slice(bytes);
        assert(self.written@ =~= old(self)@ + bytes@);
    }

    /// Append `value` in its canonical encoding: 8 little-endian bytes.
    pub fn write_usize(&mut self, value: usize)
        ensures
            final(self)@ == old(self)@ + spec_u64_to_le_bytes(value as u64),
    {
        let bytes = u64_to_le_bytes(value as u64);
        self.write(bytes.as_slice());
    }

    /// The digest of everything written.
    pub fn finish(&self) -> (r: u64)
        ensures
            r == sip13_digest(self@),
    {
        sip13(self.written.as_slice())
    }
}

impl Default for FixedHasher {
    fn default() -> (r: Self)
        ensures
            r@ == Seq::<u8>::empty(),
    {
        FixedHasher::new()
    }
}

} // verus!
