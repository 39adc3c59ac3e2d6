use vstd::prelude::*;

verus! {

/// A request made to the allocator for more room in a byte buffer: how many
/// bytes beyond the buffer's length were asked for, and whether they were
/// granted. Only `try_reserve_exact` creates one.
#[derive(Debug)]
pub struct ReserveRequest {
    additional: usize,
    granted: bool,
}

impl ReserveRequest {
    pub closed spec fn additional_spec(&self) -> nat {
        self.additional as nat
    }

    pub closed spec fn granted_spec(&self) -> bool {
        self.granted
    }

    /// Bytes asked for beyond the buffer's length.
    pub fn additional(&self) -> (r: usize)
        ensures
            r == self.additional_spec(),
    {
        self.additional
    }

    /// Whether the allocator granted the room.
    pub fn granted(&self) -> (r: bool)
        ensures
            r == self.granted_spec(),
    {
        self.granted
    }
}

/// `Vec::try_reserve_exact(additional)`: ask for room for `additional` more
/// bytes. The contents are unchanged either way, and the request records the
/// amount asked for and the answer; whether the allocator grants it is not
/// stated.
#[verifier::external_body]
pub(crate) fn try_reserve_exact(values: &mut Vec<u8>, additional: usize) -> (r: ReserveRequest)
    ensures
        final(values)@ == old(values)@,
        r.additional_spec() == additional,
{
    ReserveRequest { additional, granted: values.try_reserve_exact(additional).is_ok() }
}

} // verus!
