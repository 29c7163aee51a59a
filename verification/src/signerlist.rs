use vstd::prelude::*;
use vstd::string::StringSliceAdditionalSpecFns;

verus! {

/// The list of 16-bit indices that `serde_json` reads from `s`, if `s` is a
/// valid JSON array of them; a function of the input text alone.
pub uninterp spec fn json_u16_list(s: Seq<char>) -> Option<Seq<u16>>;

/// Relies on `serde_json::from_str::<Vec<u16>>`: parses a JSON array of
/// 16-bit unsigned integers, deterministically in the input text alone, and
/// fails exactly on input that is not such an array.
#[verifier::external_body]
pub fn parse_u16_list(s: &str) -> (r: Option<Vec<u16>>)
    ensures
        (match r {
            Some(v) => json_u16_list(s@) == Some(v@),
            None => json_u16_list(s@) is None,
        }),
{
    match serde_json::from_str::<Vec<u16>>(s) {
        Ok(v) => Some(v),
        Err(_) => None,
    }
}

} // verus!
