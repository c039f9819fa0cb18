//! The LZMA decoder this library relies on.
use vstd::prelude::*;

verus! {

#[verifier::external_type_specification]
#[verifier::external_body]
pub struct ExLzmaError(lzma::LzmaError);

/// What `lzma::decompress` yields when it decodes `data` successfully.
pub uninterp spec fn lzma_decoded(data: Seq<u8>) -> Seq<u8>;

/// Relies on `lzma::decompress`: a successful decode of the same bytes always
/// yields the same output.
#[verifier::external_body]
pub(crate) fn lzma_decompress(data: &[u8]) -> (r: Result<Vec<u8>, lzma::LzmaError>)
    ensures
        r matches Ok(v) ==> v@ == lzma_decoded(data@),
{
    lzma::decompress(data)
}

} // verus!
