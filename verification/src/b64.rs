use vstd::prelude::*;

use base64::Engine;

verus! {

/// What the standard-alphabet base64 decoder returns for a string: `None`
/// where the string is not valid base64. The result depends on the input
/// characters alone; its value is not axiomatized here beyond that.
pub uninterp spec fn b64_decode_of(s: Seq<char>) -> Option<Seq<u8>>;

/// Relies on base64's `STANDARD` engine decoder: a pure function of the
/// input string, `Ok` exactly on valid standard base64.
#[verifier::external_body]
pub fn b64_decode(s: &str) -> (r: Option<Vec<u8>>)
    ensures
        match r {
            Some(v) => b64_decode_of(s@) == Some(v@),
            None => b64_decode_of(s@) is None,
        },
{
    base64::engine::general_purpose::STANDARD.decode(s).ok()
}

} // verus!
