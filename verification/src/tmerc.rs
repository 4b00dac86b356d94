//! Transverse Mercator: the operator constructors for the plain projection
//! and its UTM specialization. The per-point series evaluation is numeric
//! work for the kernel layer; what is constructed here is the validated,
//! typed parameterization.

use vstd::prelude::*;
use vstd::string::*;
use crate::error::Error;
use crate::gys::local_args_spec;
use crate::kv::{pair_views, map_has, map_val};
use crate::op::{Op, plain_built, params_match, err_match, slot_ellps, slot_real};
use crate::params::{
    OpParameter, RawParameters, PModel, apply_gamut, empty_model, name_of, ignored_of, gamut_keys,
    lemma_gamut_ok_sets,
};
use crate::txt::{str_views, dec_string_of_int, i64_to_chars, chars_to_string};

verus! {

/// The schema of the plain transverse-mercator operator.
pub open spec fn is_tmerc_gamut(g: Seq<OpParameter>) -> bool {
    &&& g.len() == 7
    &&& (g[0] matches OpParameter::Flag { key } && key@ == "inv"@)
    &&& (g[1] matches OpParameter::Text { key, default } && key@ == "ellps"@ && (default matches
        Some(d) && d@ == "GRS80"@))
    &&& (g[2] matches OpParameter::Real { key, default } && key@ == "lat_0"@ && (default matches
        Some(d) && d@ == "0"@))
    &&& (g[3] matches OpParameter::Real { key, default } && key@ == "lon_0"@ && (default matches
        Some(d) && d@ == "0"@))
    &&& (g[4] matches OpParameter::Real { key, default } && key@ == "x_0"@ && (default matches
        Some(d) && d@ == "0"@))
    &&& (g[5] matches OpParameter::Real { key, default } && key@ == "y_0"@ && (default matches
        Some(d) && d@ == "0"@))
    &&& (g[6] matches OpParameter::Real { key, default } && key@ == "k_0"@ && (default matches
        Some(d) && d@ == "1"@))
}

/// What the plain transverse-mercator operator accepts.
pub fn gamut() -> (r: Vec<OpParameter>)
    ensures
        is_tmerc_gamut(r@),
{
    let mut g: Vec<OpParameter> = Vec::new();
    g.push(OpParameter::Flag { key: String::from_str("inv") });
    g.push(
        OpParameter::Text {
            key: String::from_str("ellps"),
            default: Some(String::from_str("GRS80")),
        },
    );
    g.push(
        OpParameter::Real { key: String::from_str("lat_0"), default: Some(String::from_str("0")) },
    );
    g.push(
        OpParameter::Real { key: String::from_str("lon_0"), default: Some(String::from_str("0")) },
    );
    g.push(
        OpParameter::Real { key: String::from_str("x_0"), default: Some(String::from_str("0")) },
    );
    g.push(
        OpParameter::Real { key: String::from_str("y_0"), default: Some(String::from_str("0")) },
    );
    g.push(
        OpParameter::Real { key: String::from_str("k_0"), default: Some(String::from_str("1")) },
    );
    g
}

/// Construct a plain transverse-mercator operator from one step. The
/// ellipsoid- and origin-dependent invariants are precomputed by the
/// numerical layer when the operator is first applied.
pub fn new(parameters: &RawParameters) -> (r: Result<Op, Error>)
    ensures
        exists|g: Seq<OpParameter>|
            #[trigger] is_tmerc_gamut(g) && plain_built(
                r,
                parameters.definition@,
                pair_views(parameters.globals@),
                parameters.recursion_depth as nat,
                g,
                true,
            ),
{
    let g = gamut();
    let r = Op::plain(parameters, &g, true);
    proof {
        assert(is_tmerc_gamut(g@));
    }
    r
}

/// The schema of the UTM specialization: the zone is required.
pub open spec fn is_utm_gamut(g: Seq<OpParameter>) -> bool {
    &&& g.len() == 3
    &&& (g[0] matches OpParameter::Flag { key } && key@ == "inv"@)
    &&& (g[1] matches OpParameter::Text { key, default } && key@ == "ellps"@ && (default matches
        Some(d) && d@ == "GRS80"@))
    &&& (g[2] matches OpParameter::Natural { key, default } && key@ == "zone"@ && default is None)
}

/// What the UTM specialization accepts.
pub fn utm_gamut() -> (r: Vec<OpParameter>)
    ensures
        is_utm_gamut(r@),
{
    let mut g: Vec<OpParameter> = Vec::new();
    g.push(OpParameter::Flag { key: String::from_str("inv") });
    g.push(
        OpParameter::Text {
            key: String::from_str("ellps"),
            default: Some(String::from_str("GRS80")),
        },
    );
    g.push(OpParameter::Natural { key: String::from_str("zone"), default: None });
    g
}

/// A UTM operator built from one step: the zone is an integer in 1..=60,
/// the scale slot is the UTM scale, the false easting is 500 km, the base
/// parallel is the equator, and the central meridian is the zone's.
pub open spec fn utm_built(
    r: Result<Op, Error>,
    def: Seq<char>,
    gv: Seq<(Seq<char>, Seq<char>)>,
    depth: nat,
    g: Seq<OpParameter>,
) -> bool {
    let lv = local_args_spec(def);
    let out = apply_gamut(empty_model(), g, 0, gv, lv, depth);
    match r {
        Ok(op) => out matches Ok(mdl) && {
            &&& map_has(mdl.naturals, "zone"@)
            &&& 1 <= map_val(mdl.naturals, "zone"@) <= 60
            &&& params_match(op.params, mdl)
            &&& op.params.wf()
            &&& op.descriptor.definition@ == def
            &&& op.descriptor.invertible == true
            &&& op.descriptor.inverted == mdl.booleans.contains("inv"@)
            &&& op.steps@.len() == 0
            &&& op.params.name@ == name_of(lv)
            &&& str_views(op.params.ignored@) == ignored_of(lv, gamut_keys(g))
            &&& op.params.ellps@.len() == 2 && op.params.ellps@[0]@ == slot_ellps(mdl)
            &&& op.params.y@.len() == 4 && op.params.y@[0]@ == "0"@
            &&& op.params.k@.len() == 4 && op.params.k@[0]@ == "0.9996"@
            &&& op.params.x@.len() == 4 && op.params.x@[0]@ == "500000"@
            &&& op.params.lat@.len() == 4 && op.params.lat@[0]@ == "0"@
            &&& op.params.lon@.len() == 4 && op.params.lon@[0]@ == dec_string_of_int(
                6 * (map_val(mdl.naturals, "zone"@) as int) - 183,
            )
        },
        Err(e) => (out matches Ok(mdl) && map_has(mdl.naturals, "zone"@) && !(1 <= map_val(
            mdl.naturals,
            "zone"@,
        ) <= 60) && (e matches Error::General(m) && m@
            == "UTM: 'zone' must be an integer in the interval 1..60"@)) || (out matches Err(pe)
            && err_match(e, pe)),
    }
}

/// Construct a UTM operator: a transverse-mercator parameterization with
/// the zone-derived central meridian and the fixed UTM scale and easting.
pub fn utm(parameters: &RawParameters) -> (r: Result<Op, Error>)
    ensures
        exists|g: Seq<OpParameter>|
            #[trigger] is_utm_gamut(g) && utm_built(
                r,
                parameters.definition@,
                pair_views(parameters.globals@),
                parameters.recursion_depth as nat,
                g,
            ),
{
    let g = utm_gamut();
    proof {
        assert(is_utm_gamut(g@));
    }
    let mut op = match Op::plain(parameters, &g, true) {
        Err(e) => {
            return Err(e);
        },
        Ok(op) => op,
    };
    let ghost lv = local_args_spec(parameters.definition@);
    let ghost gv = pair_views(parameters.globals@);
    let ghost depth = parameters.recursion_depth as nat;
    let ghost mdl = apply_gamut(empty_model(), g@, 0, gv, lv, depth)->Ok_0;
    proof {
        lemma_gamut_ok_sets(empty_model(), g@, 0, gv, lv, depth, mdl, 2);
        let e0 = crate::params::apply_entry(empty_model(), g@[0], gv, lv, depth);
        let m1 = e0->Ok_0;
        let e1 = crate::params::apply_entry(m1, g@[1], gv, lv, depth);
        let m2 = e1->Ok_0;
        let e2 = crate::params::apply_entry(m2, g@[2], gv, lv, depth);
        let m3 = e2->Ok_0;
        assert(e0 is Ok && m1.reals == empty_model().reals);
        assert(apply_gamut(empty_model(), g@, 0, gv, lv, depth) == apply_gamut(
            m1,
            g@,
            1,
            gv,
            lv,
            depth,
        ));
        assert(e1 is Ok && m2.reals == m1.reals);
        assert(apply_gamut(m1, g@, 1, gv, lv, depth) == apply_gamut(m2, g@, 2, gv, lv, depth));
        assert(e2 is Ok && m3.reals == m2.reals);
        assert(apply_gamut(m2, g@, 2, gv, lv, depth) == apply_gamut(m3, g@, 3, gv, lv, depth));
        assert(apply_gamut(m3, g@, 3, gv, lv, depth) == Ok::<PModel, crate::params::PErr>(m3));
        assert(mdl.reals =~= Seq::<(Seq<char>, Seq<char>)>::empty());
        assert(!map_has(mdl.reals, "y_0"@));
    }
    let zone = match op.params.natural("zone") {
        Ok(z) => z,
        Err(_) => {
            proof {
                assert(false);
            }
            return Err(Error::Unknown);
        },
    };
    if !(1 <= zone && zone <= 60) {
        return Err(Error::General("UTM: 'zone' must be an integer in the interval 1..60"));
    }
    op.params.k.set(0, String::from_str("0.9996"));
    let meridian: i64 = 6 * (zone as i64) - 183;
    let mc = i64_to_chars(meridian);
    op.params.lon.set(0, chars_to_string(&mc));
    op.params.lat.set(0, String::from_str("0"));
    op.params.x.set(0, String::from_str("500000"));
    Ok(op)
}

} // verus!
