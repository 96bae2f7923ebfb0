//! The capture bindings of a match, kept in `route_recognizer::Params`.

use route_recognizer::Params;
use vstd::prelude::*;

verus! {

/// `route_recognizer::Params`, the map from capture names to values that
/// handlers read. Its inside is not looked into; [`bindings`] stands for it.
#[verifier::external_type_specification]
#[verifier::external_body]
pub struct ExParams(Params);

/// What a `Params` holds: the value bound to each capture name.
pub uninterp spec fn bindings(params: Params) -> Map<Seq<char>, Seq<char>>;

/// `route_recognizer::Params::new`: a fresh `Params` wraps an empty map, so
/// it binds no name.
pub assume_specification[ Params::new ]() -> (fresh: Params)
    ensures
        bindings(fresh) =~= Map::empty(),
;

/// `route_recognizer::Params::insert`: hands key and value to the inner
/// map's `insert`, so the key is bound to the value, replacing an earlier
/// binding of the same key, and every other binding stays.
pub assume_specification[ Params::insert ](params: &mut Params, key: String, value: String)
    ensures
        bindings(*final(params)) == bindings(*old(params)).insert(key@, value@),
;

} // verus!
