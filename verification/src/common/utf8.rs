use vstd::prelude::*;

verus! {

/// std's `String::from_utf8`: the string that `bytes` encode, or `None`
/// (std's `Err`) when they are not valid UTF-8, as its documentation states.
#[verifier::external_body]
pub(crate) fn string_from_utf8(bytes: Vec<u8>) -> (r: Option<String>)
    ensures
        match r {
            Some(s) => vstd::utf8::valid_utf8(bytes@) && s@ == vstd::utf8::decode_utf8(bytes@),
            None => !vstd::utf8::valid_utf8(bytes@),
        },
{
    String::from_utf8(bytes).ok()
}

} // verus!
