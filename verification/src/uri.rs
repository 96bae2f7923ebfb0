//! Validity of rewritten request targets, as `hyper::Uri` judges it.

use hyper::Uri;
use std::str::FromStr;
use vstd::prelude::*;

verus! {

/// Whether `hyper::Uri` accepts the text as a request target.
pub uninterp spec fn parses_as_uri(text: Seq<char>) -> bool;

/// Whether the text begins with `/`, as a request target in origin form does.
pub open spec fn is_origin_form(text: Seq<char>) -> bool {
    text.len() > 0 && text[0] == '/'
}

/// Whether a rewritten path may be handed on: it begins with `/`, or the
/// parser accepts it for another reason.
pub open spec fn valid_target(text: Seq<char>) -> bool {
    is_origin_form(text) || parses_as_uri(text)
}

/// `hyper::Uri`'s `FromStr::from_str`, reduced to whether it succeeded. The
/// outcome depends on the text alone. The parser takes every text that
/// begins with `/` as an origin-form target without looking further, which is
/// the second clause; of other texts nothing is claimed here.
#[verifier::external_body]
pub(crate) fn is_uri(text: &str) -> (ok: bool)
    ensures
        ok == parses_as_uri(text@),
        is_origin_form(text@) ==> ok,
{
    Uri::from_str(text).is_ok()
}

} // verus!
