//! The identity operator: accepted in pipelines, changes nothing.

use vstd::prelude::*;
use vstd::string::*;
use crate::error::Error;
use crate::kv::pair_views;
use crate::op::{Op, plain_built};
use crate::params::{OpParameter, RawParameters};

verus! {

/// The schema of the identity operator: only the direction flag.
pub open spec fn is_noop_gamut(g: Seq<OpParameter>) -> bool {
    &&& g.len() == 1
    &&& (g[0] matches OpParameter::Flag { key } && key@ == "inv"@)
}

/// What the identity operator accepts.
pub fn gamut() -> (r: Vec<OpParameter>)
    ensures
        is_noop_gamut(r@),
{
    let mut g: Vec<OpParameter> = Vec::new();
    g.push(OpParameter::Flag { key: String::from_str("inv") });
    g
}

/// Construct an identity operator from one step.
pub fn new(parameters: &RawParameters) -> (r: Result<Op, Error>)
    ensures
        exists|g: Seq<OpParameter>|
            #[trigger] is_noop_gamut(g) && plain_built(
                r,
                parameters.definition@,
                pair_views(parameters.globals@),
                parameters.recursion_depth as nat,
                g,
                true,
            ),
{
    let g = gamut();
    let r = Op::plain(parameters, &g, true);
    proof {
        assert(is_noop_gamut(g@));
    }
    r
}

} // verus!
