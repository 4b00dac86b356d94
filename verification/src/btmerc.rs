//! Transverse Mercator in the closed-form variant, and its UTM
//! specialization: same parameterization as the series-based projection,
//! differing only in the numerical kernel that consumes it.

use vstd::prelude::*;
use crate::error::Error;
use crate::kv::pair_views;
use crate::op::{Op, plain_built};
use crate::params::{OpParameter, RawParameters};
use crate::tmerc::{is_tmerc_gamut, is_utm_gamut, utm_built};

verus! {

/// What the closed-form transverse-mercator operator accepts.
pub fn gamut() -> (r: Vec<OpParameter>)
    ensures
        is_tmerc_gamut(r@),
{
    crate::tmerc::gamut()
}

/// Construct a closed-form transverse-mercator operator from one step.
pub fn new(parameters: &RawParameters) -> (r: Result<Op, Error>)
    ensures
        exists|g: Seq<OpParameter>|
            #[trigger] is_tmerc_gamut(g) && plain_built(
                r,
                parameters.definition@,
                pair_views(parameters.globals@),
                parameters.recursion_depth as nat,
                g,
                true,
            ),
{
    let g = gamut();
    let r = Op::plain(parameters, &g, true);
    proof {
        assert(is_tmerc_gamut(g@));
    }
    r
}

/// Construct the UTM specialization over the closed-form kernel: the
/// parameterization is the same as the series-based one.
pub fn utm(parameters: &RawParameters) -> (r: Result<Op, Error>)
    ensures
        exists|g: Seq<OpParameter>|
            #[trigger] is_utm_gamut(g) && utm_built(
                r,
                parameters.definition@,
                pair_views(parameters.globals@),
                parameters.recursion_depth as nat,
                g,
            ),
{
    crate::tmerc::utm(parameters)
}

} // verus!
