//! Constructed operators: a descriptor with the direction flags, the typed
//! parameters, optional child steps, and the order in which a pipeline's
//! children run in each direction.

use vstd::prelude::*;
use vstd::string::*;
use crate::Direction;
use crate::error::Error;
use crate::gys::local_args_spec;
use crate::kv::{pair_views, map_has, map_val};
use crate::params::{
    OpParameter, RawParameters, ParsedParameters, PModel, PErr, apply_gamut, empty_model, name_of,
    ignored_of, gamut_keys, nat_views, int_views, series_views,
};
use crate::txt::{str_views, trim_spec, dec_string_of_int, i64_to_chars, chars_to_string};

verus! {

/// The identity type of a constructed operator.
#[verifier::external_type_specification]
#[verifier::external_body]
pub struct ExUuid(uuid::Uuid);

/// Relies on `uuid::Uuid::new_v4`: a freshly drawn random identifier;
/// nothing is assumed of its value.
#[verifier::external_body]
pub(crate) fn new_op_id() -> (r: uuid::Uuid) {
    uuid::Uuid::new_v4()
}

/// The opposite direction.
pub open spec fn flip_spec(d: Direction) -> Direction {
    match d {
        Direction::Fwd => Direction::Inv,
        Direction::Inv => Direction::Fwd,
    }
}

pub fn flip(d: Direction) -> (r: Direction)
    ensures
        r == flip_spec(d),
{
    match d {
        Direction::Fwd => Direction::Inv,
        Direction::Inv => Direction::Fwd,
    }
}

/// The direction a step actually runs in: a step constructed inverted
/// swaps the requested sense.
pub open spec fn effective_direction(inverted: bool, d: Direction) -> Direction {
    if inverted {
        flip_spec(d)
    } else {
        d
    }
}

/// Flipping twice is the identity.
pub proof fn lemma_flip_involution(d: Direction)
    ensures
        flip_spec(flip_spec(d)) == d,
{
}

/// What an operator definition resolves to: its definition text, whether
/// an inverse kernel exists, and whether this invocation flipped direction.
#[derive(Debug)]
pub struct OpDescriptor {
    pub definition: String,
    pub invertible: bool,
    pub inverted: bool,
}

/// A constructed, ready-to-apply operator: a leaf kernel described by its
/// parameters, or a pipeline of child operators.
#[derive(Debug)]
pub struct Op {
    pub descriptor: OpDescriptor,
    pub params: ParsedParameters,
    pub steps: Vec<Op>,
    pub id: uuid::Uuid,
}

/// The `inverted` flags of a pipeline's children, in declared order.
pub open spec fn step_flags(steps: Seq<Op>) -> Seq<bool> {
    Seq::new(steps.len(), |i: int| steps[i].descriptor.inverted)
}

/// The application plan of a pipeline over children with the given
/// `inverted` flags: forward visits children in declared order, inverse in
/// reverse order with each step's sense flipped; a child's own `inverted`
/// flag swaps its sense in both.
pub open spec fn plan_spec(flags: Seq<bool>, d: Direction) -> Seq<(int, Direction)> {
    let n = flags.len() as int;
    match d {
        Direction::Fwd => Seq::new(
            flags.len(),
            |i: int| (i, effective_direction(flags[i], Direction::Fwd)),
        ),
        Direction::Inv => Seq::new(
            flags.len(),
            |i: int| (n - 1 - i, effective_direction(flags[n - 1 - i], Direction::Inv)),
        ),
    }
}

/// Pipeline inversion, structurally: the inverse plan visits exactly the
/// forward plan's children, in reverse order, each with its direction
/// flipped. Running forward then inverse therefore meets every child with
/// its own inverse, innermost first.
pub proof fn lemma_pipeline_inversion(flags: Seq<bool>, i: int)
    requires
        0 <= i < flags.len(),
    ensures
        plan_spec(flags, Direction::Fwd).len() == flags.len(),
        plan_spec(flags, Direction::Inv).len() == flags.len(),
        plan_spec(flags, Direction::Inv)[i].0 == plan_spec(
            flags,
            Direction::Fwd,
        )[flags.len() - 1 - i].0,
        plan_spec(flags, Direction::Inv)[i].1 == flip_spec(
            plan_spec(flags, Direction::Fwd)[flags.len() - 1 - i].1,
        ),
{
}

impl Op {
    /// The plan for applying this operator's children in a direction.
    pub fn application_plan(&self, d: Direction) -> (r: Vec<(usize, Direction)>)
        ensures
            r@.len() == plan_spec(step_flags(self.steps@), d).len(),
            forall|i: int|
                0 <= i < r@.len() ==> (#[trigger] r@[i]).0 as int == plan_spec(
                    step_flags(self.steps@),
                    d,
                )[i].0 && r@[i].1 == plan_spec(step_flags(self.steps@), d)[i].1,
    {
        let ghost flags = step_flags(self.steps@);
        let n = self.steps.len();
        let mut r: Vec<(usize, Direction)> = Vec::new();
        let mut i: usize = 0;
        match d {
            Direction::Fwd => {
                while i < n
                    invariant
                        i <= n,
                        n == self.steps@.len(),
                        flags == step_flags(self.steps@),
                        r@.len() == i,
                        forall|j: int|
                            0 <= j < i ==> (#[trigger] r@[j]).0 as int == plan_spec(
                                flags,
                                Direction::Fwd,
                            )[j].0 && r@[j].1 == plan_spec(flags, Direction::Fwd)[j].1,
                    decreases n - i,
                {
                    let e = if self.steps[i].descriptor.inverted {
                        flip(Direction::Fwd)
                    } else {
                        Direction::Fwd
                    };
                    r.push((i, e));
                    i = i + 1;
                }
            },
            Direction::Inv => {
                while i < n
                    invariant
                        i <= n,
                        n == self.steps@.len(),
                        flags == step_flags(self.steps@),
                        r@.len() == i,
                        forall|j: int|
                            0 <= j < i ==> (#[trigger] r@[j]).0 as int == plan_spec(
                                flags,
                                Direction::Inv,
                            )[j].0 && r@[j].1 == plan_spec(flags, Direction::Inv)[j].1,
                    decreases n - i,
                {
                    let at = n - 1 - i;
                    let e = if self.steps[at].descriptor.inverted {
                        flip(Direction::Inv)
                    } else {
                        Direction::Inv
                    };
                    r.push((at, e));
                    i = i + 1;
                }
            },
        }
        r
    }
}

/// The typed stores of parsed parameters agree with a model.
pub open spec fn params_match(p: ParsedParameters, mdl: PModel) -> bool {
    &&& str_views(p.boolean@) == mdl.booleans
    &&& nat_views(p.natural@) == mdl.naturals
    &&& int_views(p.integer@) == mdl.integers
    &&& pair_views(p.real@) == mdl.reals
    &&& series_views(p.series@) == mdl.series
    &&& pair_views(p.text@) == mdl.texts
}

/// The slot text a real store supplies for a key, zero where absent.
pub open spec fn slot_real(mdl: PModel, k: Seq<char>) -> Seq<char> {
    if map_has(mdl.reals, k) {
        map_val(mdl.reals, k)
    } else {
        "0"@
    }
}

/// The ellipsoid slot a text store supplies, the default ellipsoid where
/// absent.
pub open spec fn slot_ellps(mdl: PModel) -> Seq<char> {
    if map_has(mdl.texts, "ellps"@) {
        map_val(mdl.texts, "ellps"@)
    } else {
        "GRS80"@
    }
}

/// An error of the engine matches a model-level failure.
pub open spec fn err_match(e: Error, pe: PErr) -> bool {
    match pe {
        PErr::Missing(kk) => e matches Error::MissingParam(s) && s@ == kk,
        PErr::Bad(kk, vv) => e matches Error::BadParam(s, w) && s@ == kk && w@ == vv,
        PErr::Incomplete(kk) => e matches Error::Syntax(d) && d@ == "Incomplete definition for '"@
            + trim_spec(kk) + "'"@,
        PErr::TooDeep(kk, at) => e matches Error::Recursion(a, b) && a@ == trim_spec(kk) && b@
            == at,
    }
}

/// A leaf operator built from one step against a schema: the parameters
/// resolve as the schema application says, the descriptor records the
/// definition and the `inv` flag, and there are no child steps.
pub open spec fn plain_built(
    r: Result<Op, Error>,
    def: Seq<char>,
    gv: Seq<(Seq<char>, Seq<char>)>,
    depth: nat,
    g: Seq<OpParameter>,
    invertible: bool,
) -> bool {
    let lv = local_args_spec(def);
    let out = apply_gamut(empty_model(), g, 0, gv, lv, depth);
    match r {
        Ok(op) => out matches Ok(mdl) && {
            &&& params_match(op.params, mdl)
            &&& op.params.wf()
            &&& op.descriptor.definition@ == def
            &&& op.descriptor.invertible == invertible
            &&& op.descriptor.inverted == mdl.booleans.contains("inv"@)
            &&& op.steps@.len() == 0
            &&& op.params.name@ == name_of(lv)
            &&& str_views(op.params.ignored@) == ignored_of(lv, gamut_keys(g))
            &&& op.params.ellps@.len() == 2 && op.params.ellps@[0]@ == slot_ellps(mdl)
            &&& op.params.lat@.len() == 4 && op.params.lat@[0]@ == slot_real(mdl, "lat_0"@)
            &&& op.params.lon@.len() == 4 && op.params.lon@[0]@ == slot_real(mdl, "lon_0"@)
            &&& op.params.x@.len() == 4 && op.params.x@[0]@ == slot_real(mdl, "x_0"@)
            &&& op.params.y@.len() == 4 && op.params.y@[0]@ == slot_real(mdl, "y_0"@)
            &&& op.params.k@.len() == 4 && op.params.k@[0]@ == slot_real(mdl, "k_0"@)
        },
        Err(e) => out matches Err(pe) && err_match(e, pe),
    }
}

impl Op {
    /// Build a leaf operator: apply the schema, read the `inv` flag, and
    /// wrap the result in a descriptor.
    pub fn plain(parameters: &RawParameters, gamut: &Vec<OpParameter>, invertible: bool) -> (r:
        Result<Op, Error>)
        ensures
            plain_built(
                r,
                parameters.definition@,
                pair_views(parameters.globals@),
                parameters.recursion_depth as nat,
                gamut@,
                invertible,
            ),
    {
        let mut params = match ParsedParameters::new(parameters, gamut.as_slice()) {
            Err(e) => {
                return Err(e);
            },
            Ok(p) => p,
        };
        let en = match params.text("ellps") {
            Ok(v) => v,
            Err(_) => String::from_str("GRS80"),
        };
        params.ellps.set(0, en);
        let lat0 = match params.real_text("lat_0") {
            Ok(v) => v,
            Err(_) => String::from_str("0"),
        };
        params.lat.set(0, lat0);
        let lon0 = match params.real_text("lon_0") {
            Ok(v) => v,
            Err(_) => String::from_str("0"),
        };
        params.lon.set(0, lon0);
        let x0 = match params.real_text("x_0") {
            Ok(v) => v,
            Err(_) => String::from_str("0"),
        };
        params.x.set(0, x0);
        let y0 = match params.real_text("y_0") {
            Ok(v) => v,
            Err(_) => String::from_str("0"),
        };
        params.y.set(0, y0);
        let k0 = match params.real_text("k_0") {
            Ok(v) => v,
            Err(_) => String::from_str("0"),
        };
        params.k.set(0, k0);
        let inverted = params.boolean("inv");
        let descriptor = OpDescriptor {
            definition: parameters.definition.clone(),
            invertible,
            inverted,
        };
        let id = new_op_id();
        Ok(Op { descriptor, params, steps: Vec::new(), id })
    }
}

} // verus!
