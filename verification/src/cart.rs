//! Geographic-to-cartesian conversion: the operator constructor. The
//! closed-form forward and the iterative inverse are numeric work for the
//! kernel layer.

use vstd::prelude::*;
use vstd::string::*;
use crate::error::Error;
use crate::kv::pair_views;
use crate::op::{Op, plain_built};
use crate::params::{OpParameter, RawParameters};

verus! {

/// The schema of the cartesian-conversion operator.
pub open spec fn is_cart_gamut(g: Seq<OpParameter>) -> bool {
    &&& g.len() == 2
    &&& (g[0] matches OpParameter::Flag { key } && key@ == "inv"@)
    &&& (g[1] matches OpParameter::Text { key, default } && key@ == "ellps"@ && (default matches
        Some(d) && d@ == "GRS80"@))
}

/// What the cartesian-conversion operator accepts.
pub fn gamut() -> (r: Vec<OpParameter>)
    ensures
        is_cart_gamut(r@),
{
    let mut g: Vec<OpParameter> = Vec::new();
    g.push(OpParameter::Flag { key: String::from_str("inv") });
    g.push(
        OpParameter::Text {
            key: String::from_str("ellps"),
            default: Some(String::from_str("GRS80")),
        },
    );
    g
}

/// Construct a cartesian-conversion operator from one step.
pub fn new(parameters: &RawParameters) -> (r: Result<Op, Error>)
    ensures
        exists|g: Seq<OpParameter>|
            #[trigger] is_cart_gamut(g) && plain_built(
                r,
                parameters.definition@,
                pair_views(parameters.globals@),
                parameters.recursion_depth as nat,
                g,
                true,
            ),
{
    let g = gamut();
    let r = Op::plain(parameters, &g, true);
    proof {
        assert(is_cart_gamut(g@));
    }
    r
}

} // verus!
