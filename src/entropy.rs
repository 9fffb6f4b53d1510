use vstd::prelude::*;

verus! {

/// Why a request for random bytes was not met.
#[derive(Debug, Clone, Copy, PartialEq, Eq, Structural)]
pub enum EntropyError {
    /// No host entropy source is wired up; randomness is never faked.
    Unsupported,
    /// The host handed back a different number of bytes than asked for.
    ShortFill,
    /// The host left a non-empty buffer all zero, which a secure source
    /// does not do.
    Degenerate,
}

/// Every byte is zero.
pub open spec fn all_zero(bytes: Seq<u8>) -> bool {
    forall|i: int| 0 <= i < bytes.len() ==> bytes[i] == 0
}

/// Judges what the host's entropy source produced for a request of
/// `requested` bytes.  Success means the bytes may be used as random.
pub fn entropy_outcome(host_wired: bool, requested: usize, filled: &[u8]) -> (r: Result<
    (),
    EntropyError,
>)
    ensures
        !host_wired ==> r == Err::<(), _>(EntropyError::Unsupported),
        host_wired && filled@.len() != requested ==> r == Err::<(), _>(EntropyError::ShortFill),
        host_wired && filled@.len() == requested && requested > 0 && all_zero(filled@) ==> r
            == Err::<(), _>(EntropyError::Degenerate),
        host_wired && filled@.len() == requested && (requested == 0 || !all_zero(filled@)) ==> r
            is Ok,
        r is Ok && requested > 0 ==> !all_zero(filled@),
{
    if !host_wired {
        return Err(EntropyError::Unsupported);
    }
    if filled.len() != requested {
        return Err(EntropyError::ShortFill);
    }
    let mut i: usize = 0;
    while i < requested
        invariant
            host_wired,
            requested == filled@.len(),
            i <= requested,
            forall|k: int| 0 <= k < i ==> filled@[k] == 0,
        decreases requested - i,
    {
        if filled[i] != 0 {
            return Ok(());
        }
        i = i + 1;
    }
    if requested > 0 {
        Err(EntropyError::Degenerate)
    } else {
        Ok(())
    }
}

} // verus!
