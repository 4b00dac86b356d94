//! The runtime root: owns the default parameters, the registry of built-in
//! operator constructors, and the append-only cache of constructed
//! operators. Applying an operator to coordinates is the numerical layer's
//! business; everything from text to a constructed operator happens here.

use vstd::prelude::*;
use vstd::string::*;
use crate::error::Error;
use crate::gys::{
    GysResource, GysArgs, local_args_spec, resource_steps_spec, resource_body_spec,
    resource_pieces,
};
use crate::kv::pair_views;
use crate::op::{Op, OpDescriptor, plain_built, new_op_id};
use crate::params::{RawParameters, ParsedParameters, OpParameter, name_of, find_name};
use crate::tmerc::{is_tmerc_gamut, is_utm_gamut, utm_built};
use crate::laea::{is_laea_gamut, laea_built};
use crate::cart::is_cart_gamut;
use crate::helmert::is_helmert_gamut;
use crate::noop::is_noop_gamut;
use crate::txt::{
    str_eq, str_views, str_to_chars, chars_to_string, join_with, join_chars, trim_spec, trim_chars,
    trim_match_spec, trim_match_chars, split_char_spec, tokens_spec, tokens_chars, seq_views,
};

verus! {

/// The runtime root of the engine.
pub struct Context {
    /// Default parameters inherited by every definition: `ellps: GRS80`
    /// unless overridden.
    pub globals: Vec<(String, String)>,
    /// Every operator constructed so far, in construction order.
    pub ops: Vec<Op>,
}

/// A definition with the shorthand markers removed: outer whitespace, then
/// any wrapping pipes and square brackets.
pub open spec fn stripped_spec(s: Seq<char>) -> Seq<char> {
    trim_match_spec(trim_match_spec(trim_match_spec(trim_spec(s), '|'), '['), ']')
}

/// Whether a definition that splits into more than one piece has a piece
/// with nothing in it: an empty step inside a pipeline.
pub open spec fn has_empty_step(def: Seq<char>) -> bool {
    let pieces = split_char_spec(resource_body_spec(def), '|');
    pieces.len() > 1 && exists|i: int|
        0 <= i < pieces.len() && trim_spec(#[trigger] pieces[i]).len() == 0
}

/// A canonical step ending in a key with no value.
pub open spec fn step_unterminated(s: Seq<char>) -> bool {
    let t = tokens_spec(s);
    t.len() > 0 && t.last().len() > 0 && t.last().last() == ':'
}

/// A leaf operator built by the registered constructor for the step's
/// operator name; an unregistered name is reported not-found.
pub open spec fn leaf_built(
    r: Result<Op, Error>,
    step: Seq<char>,
    gv: Seq<(Seq<char>, Seq<char>)>,
    depth: nat,
) -> bool {
    let nm = name_of(local_args_spec(step));
    if nm == "tmerc"@ {
        exists|g: Seq<OpParameter>| #[trigger] is_tmerc_gamut(g) && plain_built(r, step, gv, depth, g, true)
    } else if nm == "btmerc"@ {
        exists|g: Seq<OpParameter>| #[trigger] is_tmerc_gamut(g) && plain_built(r, step, gv, depth, g, true)
    } else if nm == "utm"@ || nm == "butm"@ {
        exists|g: Seq<OpParameter>| #[trigger] is_utm_gamut(g) && utm_built(r, step, gv, depth, g)
    } else if nm == "laea"@ {
        exists|g: Seq<OpParameter>| #[trigger] is_laea_gamut(g) && laea_built(r, step, gv, depth, g)
    } else if nm == "cart"@ {
        exists|g: Seq<OpParameter>| #[trigger] is_cart_gamut(g) && plain_built(r, step, gv, depth, g, true)
    } else if nm == "helmert"@ {
        exists|g: Seq<OpParameter>| #[trigger] is_helmert_gamut(g) && plain_built(r, step, gv, depth, g, true)
    } else if nm == "noop"@ {
        exists|g: Seq<OpParameter>| #[trigger] is_noop_gamut(g) && plain_built(r, step, gv, depth, g, true)
    } else {
        r matches Err(e) && (e matches Error::NotFound(n, h) && n@ == nm && h@.len() == 0)
    }
}

/// A pipeline's declared globals with the direction flag left out: `inv`
/// is not inherited by the steps.
pub open spec fn non_inv(extra: Seq<(String, String)>) -> Seq<(String, String)>
    decreases extra.len(),
{
    if extra.len() == 0 {
        extra
    } else {
        let rest = non_inv(extra.skip(1));
        if extra[0].0@ == "inv"@ {
            rest
        } else {
            seq![extra[0]] + rest
        }
    }
}

/// What `op` promises of its result: the cache grows by at most the one
/// operator for the definition's canonical form, a hit returns its cached
/// handle, the built operator's pieces come from the registered
/// constructors over the given globals, and every error is tied to its
/// cause — a syntax failure of the definition or a constructor's own
/// failure on one of its steps.
pub open spec fn op_outcome(
    r: Result<usize, Error>,
    definition: Seq<char>,
    gv: Seq<(Seq<char>, Seq<char>)>,
    ops_old: Seq<Op>,
    ops_new: Seq<Op>,
) -> bool {
    let steps = resource_steps_spec(stripped_spec(definition));
    let canonical = join_with(steps, " | "@);
    match r {
                    Ok(h) => {
                        &&& !has_empty_step(stripped_spec(definition))
                        &&& forall|j: int|
                            0 <= j < steps.len() ==> !step_unterminated(#[trigger] steps[j])
                        &&& (h < ops_old.len() && ops_new == ops_old
                            && ops_new[h as int].descriptor.definition@ == canonical) || {
                        &&& steps.len() >= 1
                        &&& ops_new.len() == ops_old.len() + 1
                        &&& forall|j: int|
                            0 <= j < ops_old.len() ==> ops_new[j] == ops_old[j]
                        &&& h == ops_old.len()
                        &&& ops_new[h as int].descriptor.definition@ == canonical
                        &&& (steps.len() == 1 ==> ops_new[h as int].steps@.len() == 0
                            && leaf_built(
                            Ok(ops_new[h as int]),
                            steps[0],
                            gv,
                            32,
                        ))
                        &&& (steps.len() > 1 ==> {
                            let p = ops_new[h as int];
                            &&& p.steps@.len() == steps.len()
                            &&& p.descriptor.inverted == false
                            &&& p.descriptor.invertible == true
                            &&& forall|j: int|
                                0 <= j < steps.len() ==> leaf_built(
                                    Ok(#[trigger] p.steps@[j]),
                                    steps[j],
                                    gv,
                                    32,
                                )
                        })
                    }
                    },
                    Err(e) => {
                        &&& ops_new == ops_old
                        &&& has_empty_step(stripped_spec(definition)) ==> (e matches
                            Error::Syntax(d) && d@ == "Empty step!"@)
                        &&& !has_empty_step(stripped_spec(definition)) && steps.len() == 0 ==> (e
                            matches Error::Syntax(d) && d@ == stripped_spec(definition))
                        &&& (has_empty_step(stripped_spec(definition)) || steps.len() == 0 || (
                        exists|j: int|
                            0 <= j < steps.len() && #[trigger] step_unterminated(steps[j]) && (e
                                matches Error::Syntax(d) && d@ == steps[j])) || (exists|j: int|
                            0 <= j < steps.len() && #[trigger] leaf_built(
                                Err(e),
                                steps[j],
                                gv,
                                32,
                            )))
                    },
                }
}

impl Context {
    /// A fresh context with the one default `ellps: GRS80` and an empty
    /// operator cache.
    pub fn new() -> (r: Context)
        ensures
            r.globals@.len() == 1,
            pair_views(r.globals@)[0] == ("ellps"@, "GRS80"@),
            r.ops@.len() == 0,
    {
        let mut globals: Vec<(String, String)> = Vec::new();
        globals.push((String::from_str("ellps"), String::from_str("GRS80")));
        proof {
            assert(pair_views(globals@)[0] == ("ellps"@, "GRS80"@));
        }
        Context { globals, ops: Vec::new() }
    }

    /// Dispatch one canonical step to its registered constructor.
    fn instantiate(step: &str, globals: &[(String, String)]) -> (r: Result<Op, Error>)
        ensures
            leaf_built(r, step@, pair_views(globals@), 32),
    {
        let raw = RawParameters::new(step, globals);
        let locals = GysArgs::step_to_local_args(step);
        let name = find_name(&locals);
        if str_eq(name.as_str(), "tmerc") {
            crate::tmerc::new(&raw)
        } else if str_eq(name.as_str(), "btmerc") {
            crate::btmerc::new(&raw)
        } else if str_eq(name.as_str(), "utm") {
            crate::tmerc::utm(&raw)
        } else if str_eq(name.as_str(), "butm") {
            crate::btmerc::utm(&raw)
        } else if str_eq(name.as_str(), "laea") {
            crate::laea::new(&raw)
        } else if str_eq(name.as_str(), "cart") {
            crate::cart::new(&raw)
        } else if str_eq(name.as_str(), "helmert") {
            crate::helmert::new(&raw)
        } else if str_eq(name.as_str(), "noop") {
            crate::noop::new(&raw)
        } else {
            Err(Error::NotFound(name, String::new()))
        }
    }

    /// Compile a definition into an operator and intern it: an already
    /// constructed definition returns its cached handle, a new one is
    /// constructed — one leaf, or a pipeline of leaves over the shared
    /// globals — and appended.
    pub fn op(&mut self, definition: &str) -> (r: Result<usize, Error>)
        ensures
            final(self).globals@ == old(self).globals@,
            op_outcome(
                r,
                definition@,
                pair_views(old(self).globals@),
                old(self).ops@,
                final(self).ops@,
            ),
    {
        let d0 = str_to_chars(definition);
        let d1 = trim_chars(&d0);
        let d2 = trim_match_chars(&d1, '|');
        let d3 = trim_match_chars(&d2, '[');
        let d4 = trim_match_chars(&d3, ']');
        let stripped = chars_to_string(&d4);
        let pieces = resource_pieces(stripped.as_str());
        let ghost pview2 = split_char_spec(resource_body_spec(stripped_spec(definition@)), '|');
        proof {
            assert(seq_views(pieces@) == pview2);
        }
        if pieces.len() > 1 {
            let mut pi: usize = 0;
            while pi < pieces.len()
                invariant
                    pi <= pieces.len(),
                    pieces@.len() > 1,
                    pview2 == seq_views(pieces@),
                    pview2 == split_char_spec(
                        resource_body_spec(stripped_spec(definition@)),
                        '|',
                    ),
                    self.globals@ == old(self).globals@,
                    self.ops@ == old(self).ops@,
                    forall|q: int| 0 <= q < pi ==> trim_spec(#[trigger] pview2[q]).len() > 0,
                decreases pieces.len() - pi,
            {
                proof {
                    assert(pview2[pi as int] == pieces@[pi as int]@);
                }
                let t = trim_chars(&pieces[pi]);
                if t.len() == 0 {
                    return Err(Error::Syntax(String::from_str("Empty step!")));
                }
                pi = pi + 1;
            }
        }
        proof {
            if has_empty_step(stripped_spec(definition@)) {
                let w = choose|i: int|
                    0 <= i < pview2.len() && trim_spec(#[trigger] pview2[i]).len() == 0;
                assert(trim_spec(pview2[w]).len() > 0);
            }
        }
        let res = GysResource::new(stripped.as_str(), self.globals.as_slice());
        let n = res.steps.len();
        if n == 0 {
            return Err(Error::Syntax(stripped));
        }
        let ghost steps = resource_steps_spec(stripped_spec(definition@));
        let mut step_chars: Vec<Vec<char>> = Vec::new();
        let mut i: usize = 0;
        while i < n
            invariant
                i <= n,
                n == res.steps@.len(),
                str_views(res.steps@) == steps,
                step_chars@.len() == i,
                forall|j: int|
                    0 <= j < i ==> (#[trigger] step_chars@[j])@ == steps[j],
            decreases n - i,
        {
            proof {
                assert(str_views(res.steps@)[i as int] == res.steps@[i as int]@);
            }
            step_chars.push(str_to_chars(res.steps[i].as_str()));
            i = i + 1;
        }
        let mut ui: usize = 0;
        while ui < n
            invariant
                ui <= n,
                n == res.steps@.len(),
                n == step_chars@.len(),
                steps == resource_steps_spec(stripped_spec(definition@)),
                str_views(res.steps@) == steps,
                self.globals@ == old(self).globals@,
                self.ops@ == old(self).ops@,
                !has_empty_step(stripped_spec(definition@)),
                forall|j: int| 0 <= j < n ==> (#[trigger] step_chars@[j])@ == steps[j],
                forall|q: int| 0 <= q < ui ==> !step_unterminated(#[trigger] steps[q]),
            decreases n - ui,
        {
            let tk = tokens_chars(&step_chars[ui]);
            proof {
                assert(seq_views(tk@) == tokens_spec(step_chars@[ui as int]@));
            }
            if tk.len() > 0 {
                let last = &tk[tk.len() - 1];
                proof {
                    assert(seq_views(tk@)[tk@.len() - 1] == tk@[tk@.len() - 1]@);
                }
                if last.len() > 0 && last[last.len() - 1] == ':' {
                    proof {
                        assert(step_unterminated(steps[ui as int]));
                        assert(str_views(res.steps@)[ui as int] == res.steps@[ui as int]@);
                    }
                    return Err(Error::Syntax(res.steps[ui].clone()));
                }
            }
            ui = ui + 1;
        }
        let mut sep: Vec<char> = Vec::new();
        sep.push(' ');
        sep.push('|');
        sep.push(' ');
        proof {
            lemma_pipe_sep();
            assert(sep@ =~= " | "@);
            assert(crate::txt::seq_views(step_chars@) =~= steps);
        }
        let canonical_chars = join_chars(&step_chars, &sep);
        let canonical = chars_to_string(&canonical_chars);
        let mut h: usize = 0;
        while h < self.ops.len()
            invariant
                h <= self.ops@.len(),
                self.globals@ == old(self).globals@,
                self.ops@ == old(self).ops@,
                steps == resource_steps_spec(stripped_spec(definition@)),
                canonical@ == join_with(steps, " | "@),
                !has_empty_step(stripped_spec(definition@)),
                forall|q: int| 0 <= q < steps.len() ==> !step_unterminated(#[trigger] steps[q]),
            decreases self.ops.len() - h,
        {
            let hit = {
                let cached = &self.ops[h];
                str_eq(cached.descriptor.definition.as_str(), canonical.as_str())
            };
            if hit {
                return Ok(h);
            }
            h = h + 1;
        }
        if n == 1 {
            proof {
                assert(str_views(res.steps@)[0] == res.steps@[0]@);
            }
            let op = match Context::instantiate(res.steps[0].as_str(), res.globals.as_slice()) {
                Err(e) => {
                    proof {
                        assert(leaf_built(
                            Err::<Op, Error>(e),
                            steps[0],
                            pair_views(old(self).globals@),
                            32,
                        ));
                    }
                    return Err(e);
                },
                Ok(op) => op,
            };
            let idx = self.ops.len();
            self.ops.push(op);
            proof {
                assert(join_with(steps, " | "@) == steps[0]);
            }
            return Ok(idx);
        }
        let ghost gv = pair_views(self.globals@);
        let mut children: Vec<Op> = Vec::new();
        let mut i2: usize = 0;
        while i2 < n
            invariant
                i2 <= n,
                n == res.steps@.len(),
                n == steps.len(),
                steps == resource_steps_spec(stripped_spec(definition@)),
                str_views(res.steps@) == steps,
                self.globals@ == old(self).globals@,
                self.ops@ == old(self).ops@,
                res.globals@ == self.globals@,
                gv == pair_views(self.globals@),
                !has_empty_step(stripped_spec(definition@)),
                forall|q: int| 0 <= q < steps.len() ==> !step_unterminated(#[trigger] steps[q]),
                children@.len() == i2,
                forall|j: int|
                    0 <= j < i2 ==> leaf_built(
                        Ok(#[trigger] children@[j]),
                        steps[j],
                        gv,
                        32,
                    ),
            decreases n - i2,
        {
            proof {
                assert(str_views(res.steps@)[i2 as int] == res.steps@[i2 as int]@);
            }
            let child = match Context::instantiate(
                res.steps[i2].as_str(),
                res.globals.as_slice(),
            ) {
                Err(e) => {
                    proof {
                        assert(leaf_built(
                            Err::<Op, Error>(e),
                            steps[i2 as int],
                            pair_views(old(self).globals@),
                            32,
                        ));
                    }
                    return Err(e);
                },
                Ok(op) => op,
            };
            children.push(child);
            i2 = i2 + 1;
        }
        let params = blank_pipeline_params();
        let descriptor = OpDescriptor { definition: canonical, invertible: true, inverted: false };
        let id = new_op_id();
        let op = Op { descriptor, params, steps: children, id };
        let idx = self.ops.len();
        self.ops.push(op);
        Ok(idx)
    }


    /// Compile a definition under pipeline-declared globals: the extra
    /// pairs — the direction flag aside — overlay the context's defaults
    /// for this construction only, as a block definition's `globals`
    /// mapping asks.
    pub fn op_with_globals(&mut self, definition: &str, extra: &[(String, String)]) -> (r: Result<
        usize,
        Error,
    >)
        ensures
            final(self).globals@ == old(self).globals@,
            op_outcome(
                r,
                definition@,
                pair_views(old(self).globals@ + non_inv(extra@)),
                old(self).ops@,
                final(self).ops@,
            ),
    {
        let saved = self.globals.len();
        let ghost mut gpre: Seq<(String, String)> = Seq::empty();
        let mut i: usize = 0;
        proof {
            assert(extra@.skip(0) =~= extra@);
            assert(gpre + non_inv(extra@) =~= non_inv(extra@));
            assert(self.globals@ =~= old(self).globals@ + gpre);
        }
        while i < extra.len()
            invariant
                i <= extra@.len(),
                saved == old(self).globals@.len(),
                self.ops@ == old(self).ops@,
                self.globals@ == old(self).globals@ + gpre,
                non_inv(extra@) == gpre + non_inv(extra@.skip(i as int)),
            decreases extra.len() - i,
        {
            let ghost suf = extra@.skip(i as int);
            proof {
                assert(suf[0] == extra@[i as int]);
                assert(suf.skip(1) =~= extra@.skip(i + 1 as int));
            }
            let e = &extra[i];
            if !crate::txt::str_eq(e.0.as_str(), "inv") {
                let ghost gold = gpre;
                self.globals.push((e.0.clone(), e.1.clone()));
                proof {
                    gpre = gpre.push(extra@[i as int]);
                    assert(gpre =~= gold + seq![extra@[i as int]]);
                    assert(gold + (seq![extra@[i as int]] + non_inv(extra@.skip(i + 1 as int)))
                        =~= gpre + non_inv(extra@.skip(i + 1 as int)));
                    assert(self.globals@ =~= old(self).globals@ + gpre);
                }
            }
            i = i + 1;
        }
        proof {
            assert(extra@.skip(extra@.len() as int) =~= Seq::<(String, String)>::empty());
            assert(gpre + Seq::<(String, String)>::empty() =~= gpre);
            assert(self.globals@ =~= old(self).globals@ + non_inv(extra@));
        }
        let r = self.op(definition);
        self.globals.truncate(saved);
        proof {
            assert((old(self).globals@ + non_inv(extra@)).subrange(0, saved as int) =~= old(
                self,
            ).globals@);
        }
        r
    }

    /// A constructed operator, by handle.
    pub fn get_op(&self, h: usize) -> (r: &Op)
        requires
            h < self.ops@.len(),
        ensures
            *r == self.ops@[h as int],
    {
        &self.ops[h]
    }
}

/// The characters of the canonical step separator.
proof fn lemma_pipe_sep()
    ensures
        " | "@ =~= seq![' ', '|', ' '],
{
    reveal_strlit(" | ");
}

/// The parameter record a pipeline operator carries: nothing of its own.
fn blank_pipeline_params() -> (r: ParsedParameters)
    ensures
        r.name@ == "pipeline"@,
{
    let mut ellps: Vec<String> = Vec::new();
    ellps.push(String::from_str("GRS80"));
    ellps.push(String::from_str("GRS80"));
    let mut lat: Vec<String> = Vec::new();
    let mut lon: Vec<String> = Vec::new();
    let mut x: Vec<String> = Vec::new();
    let mut y: Vec<String> = Vec::new();
    let mut k: Vec<String> = Vec::new();
    let mut j: usize = 0;
    while j < 4
        invariant
            j <= 4,
            lat@.len() == j,
            lon@.len() == j,
            x@.len() == j,
            y@.len() == j,
            k@.len() == j,
        decreases 4 - j,
    {
        lat.push(String::from_str("0"));
        lon.push(String::from_str("0"));
        x.push(String::from_str("0"));
        y.push(String::from_str("0"));
        k.push(String::from_str("0"));
        j = j + 1;
    }
    ParsedParameters {
        name: String::from_str("pipeline"),
        ellps,
        lat,
        lon,
        x,
        y,
        k,
        boolean: Vec::new(),
        natural: Vec::new(),
        integer: Vec::new(),
        real: Vec::new(),
        series: Vec::new(),
        text: Vec::new(),
        ignored: Vec::new(),
    }
}

} // verus!
