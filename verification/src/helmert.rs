//! The Helmert transform: the operator constructor. Both the bare and the
//! prefixed spellings of the translation components are accepted; the
//! linear algebra is numeric work for the kernel layer.

use vstd::prelude::*;
use vstd::string::*;
use crate::error::Error;
use crate::kv::pair_views;
use crate::op::{Op, plain_built};
use crate::params::{OpParameter, RawParameters};

verus! {

/// The schema of the Helmert operator: a translation given as `x y z` or
/// as `dx dy dz`, an optional rotation `rx ry rz`, and a scale offset `s`
/// in parts per million.
pub open spec fn is_helmert_gamut(g: Seq<OpParameter>) -> bool {
    &&& g.len() == 12
    &&& (g[0] matches OpParameter::Flag { key } && key@ == "inv"@)
    &&& (g[1] matches OpParameter::Text { key, default } && key@ == "ellps"@ && (default matches
        Some(d) && d@ == "GRS80"@))
    &&& (g[2] matches OpParameter::Real { key, default } && key@ == "x"@ && (default matches Some(
        d,
    ) && d@ == "0"@))
    &&& (g[3] matches OpParameter::Real { key, default } && key@ == "y"@ && (default matches Some(
        d,
    ) && d@ == "0"@))
    &&& (g[4] matches OpParameter::Real { key, default } && key@ == "z"@ && (default matches Some(
        d,
    ) && d@ == "0"@))
    &&& (g[5] matches OpParameter::Real { key, default } && key@ == "dx"@ && (default matches Some(
        d,
    ) && d@ == "0"@))
    &&& (g[6] matches OpParameter::Real { key, default } && key@ == "dy"@ && (default matches Some(
        d,
    ) && d@ == "0"@))
    &&& (g[7] matches OpParameter::Real { key, default } && key@ == "dz"@ && (default matches Some(
        d,
    ) && d@ == "0"@))
    &&& (g[8] matches OpParameter::Real { key, default } && key@ == "rx"@ && (default matches Some(
        d,
    ) && d@ == "0"@))
    &&& (g[9] matches OpParameter::Real { key, default } && key@ == "ry"@ && (default matches Some(
        d,
    ) && d@ == "0"@))
    &&& (g[10] matches OpParameter::Real { key, default } && key@ == "rz"@ && (default matches
        Some(d) && d@ == "0"@))
    &&& (g[11] matches OpParameter::Real { key, default } && key@ == "s"@ && (default matches Some(
        d,
    ) && d@ == "0"@))
}

/// What the Helmert operator accepts.
pub fn gamut() -> (r: Vec<OpParameter>)
    ensures
        is_helmert_gamut(r@),
{
    let mut g: Vec<OpParameter> = Vec::new();
    g.push(OpParameter::Flag { key: String::from_str("inv") });
    g.push(
        OpParameter::Text {
            key: String::from_str("ellps"),
            default: Some(String::from_str("GRS80")),
        },
    );
    g.push(OpParameter::Real { key: String::from_str("x"), default: Some(String::from_str("0")) });
    g.push(OpParameter::Real { key: String::from_str("y"), default: Some(String::from_str("0")) });
    g.push(OpParameter::Real { key: String::from_str("z"), default: Some(String::from_str("0")) });
    g.push(
        OpParameter::Real { key: String::from_str("dx"), default: Some(String::from_str("0")) },
    );
    g.push(
        OpParameter::Real { key: String::from_str("dy"), default: Some(String::from_str("0")) },
    );
    g.push(
        OpParameter::Real { key: String::from_str("dz"), default: Some(String::from_str("0")) },
    );
    g.push(
        OpParameter::Real { key: String::from_str("rx"), default: Some(String::from_str("0")) },
    );
    g.push(
        OpParameter::Real { key: String::from_str("ry"), default: Some(String::from_str("0")) },
    );
    g.push(
        OpParameter::Real { key: String::from_str("rz"), default: Some(String::from_str("0")) },
    );
    g.push(OpParameter::Real { key: String::from_str("s"), default: Some(String::from_str("0")) });
    g
}

/// Construct a Helmert operator from one step.
pub fn new(parameters: &RawParameters) -> (r: Result<Op, Error>)
    ensures
        exists|g: Seq<OpParameter>|
            #[trigger] is_helmert_gamut(g) && plain_built(
                r,
                parameters.definition@,
                pair_views(parameters.globals@),
                parameters.recursion_depth as nat,
                g,
                true,
            ),
{
    let g = gamut();
    let r = Op::plain(parameters, &g, true);
    proof {
        assert(is_helmert_gamut(g@));
    }
    r
}

} // verus!
