//! Typed parameters: a schema (an ordered list of `OpParameter` entries)
//! applied to the raw key/value arguments of one step, against the scoped
//! globals, with `^`-indirection, `*`-defaults, and typed coercion.

use vstd::prelude::*;
use vstd::string::*;
use crate::error::Error;
use crate::gys::{
    GysArgs, LookupResult, lookup_spec, local_args_spec, exec_lookup, Resolution,
};
use crate::kv::{
    pair_views, unique_keys, map_has, map_val, map_set, lemma_map_set_props, sget, sset,
};
use crate::txt::{
    str_eq, str_to_chars, chars_to_string, trim_spec, trim_chars, is_true_word,
    word_true, is_real_token, is_real_token_chars, nat_token_value, parse_usize, int_token_value,
    parse_i64, split_char_spec, split_chars, seq_views, str_views,
};

verus! {

/// One entry of a kernel's schema: what the kernel accepts under this key,
/// and the default that stands in where the caller omits it (`None` makes
/// the parameter required).
pub enum OpParameter {
    Flag { key: String },
    Natural { key: String, default: Option<usize> },
    Integer { key: String, default: Option<i64> },
    Real { key: String, default: Option<String> },
    Series { key: String, default: Option<String> },
    Text { key: String, default: Option<String> },
}

/// The key a schema entry declares.
pub open spec fn entry_key(p: OpParameter) -> Seq<char> {
    match p {
        OpParameter::Flag { key } => key@,
        OpParameter::Natural { key, default } => key@,
        OpParameter::Integer { key, default } => key@,
        OpParameter::Real { key, default } => key@,
        OpParameter::Series { key, default } => key@,
        OpParameter::Text { key, default } => key@,
    }
}

/// The unprocessed input for one operator: its definition (one canonical
/// step), the pipeline's inherited globals, and the bound on indirection
/// chasing.
pub struct RawParameters {
    pub definition: String,
    pub globals: Vec<(String, String)>,
    pub recursion_depth: usize,
}

impl RawParameters {
    pub fn new(definition: &str, globals: &[(String, String)]) -> (r: RawParameters)
        ensures
            r.definition@ == definition@,
            r.globals@ == globals@,
            r.recursion_depth == 32,
    {
        RawParameters {
            definition: String::from_str(definition),
            globals: crate::kv::clone_pairs(globals),
            recursion_depth: 32,
        }
    }
}

/// The scopes a key is resolved against: globals then locals, reversed, so
/// that locals shadow globals.
pub open spec fn vhaystack(
    gv: Seq<(Seq<char>, Seq<char>)>,
    lv: Seq<(Seq<char>, Seq<char>)>,
) -> Seq<(Seq<char>, Seq<char>)> {
    let both = gv + lv;
    Seq::new(both.len(), |i: int| both[both.len() - 1 - i])
}

/// What resolving one key against the scopes yields, with at most `depth`
/// indirection hops.
pub open spec fn chase_outcome(
    gv: Seq<(Seq<char>, Seq<char>)>,
    lv: Seq<(Seq<char>, Seq<char>)>,
    key: Seq<char>,
    depth: nat,
) -> LookupResult {
    lookup_spec(vhaystack(gv, lv), trim_spec(key), trim_spec(key), Seq::empty(), false, depth)
}

/// The typed stores a schema application fills.
pub struct PModel {
    pub booleans: Seq<Seq<char>>,
    pub naturals: Seq<(Seq<char>, usize)>,
    pub integers: Seq<(Seq<char>, i64)>,
    pub reals: Seq<(Seq<char>, Seq<char>)>,
    pub series: Seq<(Seq<char>, Seq<Seq<char>>)>,
    pub texts: Seq<(Seq<char>, Seq<char>)>,
}

pub open spec fn empty_model() -> PModel {
    PModel {
        booleans: Seq::empty(),
        naturals: Seq::empty(),
        integers: Seq::empty(),
        reals: Seq::empty(),
        series: Seq::empty(),
        texts: Seq::empty(),
    }
}

/// A key added to the flag set, once.
pub open spec fn bool_add(s: Seq<Seq<char>>, k: Seq<char>) -> Seq<Seq<char>> {
    if s.contains(k) {
        s
    } else {
        s.push(k)
    }
}

/// How applying a schema entry can fail.
pub enum PErr {
    /// A required parameter (no default) found no value.
    Missing(Seq<char>),
    /// A value would not coerce to the declared type.
    Bad(Seq<char>, Seq<char>),
    /// An indirection ran off the end of the scopes.
    Incomplete(Seq<char>),
    /// The indirection bound was exhausted; carries the key and the needle
    /// chased at that point.
    TooDeep(Seq<char>, Seq<char>),
}

/// Every comma-separated element of `v` reads as a real token.
pub open spec fn series_ok(v: Seq<char>) -> bool {
    forall|i: int|
        0 <= i < split_char_spec(v, ',').len() ==> is_real_token(
            #[trigger] split_char_spec(v, ',')[i],
        )
}

/// A flag value accepted as set: empty, or the word `true`, case ignored.
pub open spec fn flag_true(v: Seq<char>) -> bool {
    v.len() == 0 || is_true_word(v)
}

/// A natural value in range: an unsigned decimal token that fits `usize`.
pub open spec fn natural_of(v: Seq<char>) -> Option<usize> {
    match nat_token_value(v) {
        Some(n) => if n <= usize::MAX as int {
            Some(n as usize)
        } else {
            None
        },
        None => None,
    }
}

/// An integer value in range: a signed decimal token that fits `i64`.
pub open spec fn integer_of(v: Seq<char>) -> Option<i64> {
    match int_token_value(v) {
        Some(n) => if i64::MIN as int <= n <= i64::MAX as int {
            Some(n as i64)
        } else {
            None
        },
        None => None,
    }
}

/// One schema entry applied to the model: the key is resolved against the
/// scopes, coerced to the declared type, and stored; a missing optional
/// entry falls back to its default, a missing required one fails. A flag
/// set to anything but the empty value or the word `true` reads as unset.
pub open spec fn apply_entry(
    m: PModel,
    p: OpParameter,
    gv: Seq<(Seq<char>, Seq<char>)>,
    lv: Seq<(Seq<char>, Seq<char>)>,
    depth: nat,
) -> Result<PModel, PErr> {
    let key = entry_key(p);
    match chase_outcome(gv, lv, key, depth) {
        LookupResult::Incomplete => Err(PErr::Incomplete(key)),
        LookupResult::TooDeep(at) => Err(PErr::TooDeep(key, at)),
        LookupResult::Found(v) => apply_value(m, p, v),
        LookupResult::Defaulted(v) => apply_value(m, p, v),
        LookupResult::Missing => apply_missing(m, p),
    }
}

/// A resolved value coerced and stored under its entry's type.
pub open spec fn apply_value(m: PModel, p: OpParameter, v: Seq<char>) -> Result<PModel, PErr> {
    match p {
        OpParameter::Flag { key } => if flag_true(v) {
            Ok(PModel { booleans: bool_add(m.booleans, key@), ..m })
        } else {
            Ok(m)
        },
        OpParameter::Natural { key, default } => match natural_of(v) {
            Some(n) => Ok(PModel { naturals: map_set(m.naturals, key@, n), ..m }),
            None => Err(PErr::Bad(key@, v)),
        },
        OpParameter::Integer { key, default } => match integer_of(v) {
            Some(n) => Ok(PModel { integers: map_set(m.integers, key@, n), ..m }),
            None => Err(PErr::Bad(key@, v)),
        },
        OpParameter::Real { key, default } => if is_real_token(v) {
            Ok(PModel { reals: map_set(m.reals, key@, v), ..m })
        } else {
            Err(PErr::Bad(key@, v))
        },
        OpParameter::Series { key, default } => if series_ok(v) {
            Ok(PModel { series: map_set(m.series, key@, split_char_spec(v, ',')), ..m })
        } else {
            Err(PErr::Bad(key@, v))
        },
        OpParameter::Text { key, default } => Ok(
            PModel { texts: map_set(m.texts, key@, v), ..m },
        ),
    }
}

/// No source supplied a value: the entry's default stands in, or the
/// parameter is reported missing. An empty series default contributes
/// nothing.
pub open spec fn apply_missing(m: PModel, p: OpParameter) -> Result<PModel, PErr> {
    match p {
        OpParameter::Flag { key } => Ok(m),
        OpParameter::Natural { key, default } => match default {
            Some(d) => Ok(PModel { naturals: map_set(m.naturals, key@, d), ..m }),
            None => Err(PErr::Missing(key@)),
        },
        OpParameter::Integer { key, default } => match default {
            Some(d) => Ok(PModel { integers: map_set(m.integers, key@, d), ..m }),
            None => Err(PErr::Missing(key@)),
        },
        OpParameter::Real { key, default } => match default {
            Some(d) => Ok(PModel { reals: map_set(m.reals, key@, d@), ..m }),
            None => Err(PErr::Missing(key@)),
        },
        OpParameter::Series { key, default } => match default {
            Some(d) => if d@.len() == 0 {
                Ok(m)
            } else if series_ok(d@) {
                Ok(PModel { series: map_set(m.series, key@, split_char_spec(d@, ',')), ..m })
            } else {
                Err(PErr::Bad(key@, d@))
            },
            None => Err(PErr::Missing(key@)),
        },
        OpParameter::Text { key, default } => match default {
            Some(d) => Ok(PModel { texts: map_set(m.texts, key@, d@), ..m }),
            None => Err(PErr::Missing(key@)),
        },
    }
}

/// A whole schema applied in order, stopping at the first failure.
pub open spec fn apply_gamut(
    m: PModel,
    g: Seq<OpParameter>,
    i: int,
    gv: Seq<(Seq<char>, Seq<char>)>,
    lv: Seq<(Seq<char>, Seq<char>)>,
    depth: nat,
) -> Result<PModel, PErr>
    decreases g.len() - i,
{
    if i >= g.len() {
        Ok(m)
    } else {
        match apply_entry(m, g[i], gv, lv, depth) {
            Err(e) => Err(e),
            Ok(m2) => apply_gamut(m2, g, i + 1, gv, lv, depth),
        }
    }
}

/// A successful schema application never loses a natural or real entry.
pub proof fn lemma_gamut_ok_keeps(
    m: PModel,
    g: Seq<OpParameter>,
    i: int,
    gv: Seq<(Seq<char>, Seq<char>)>,
    lv: Seq<(Seq<char>, Seq<char>)>,
    depth: nat,
    mdl: PModel,
)
    requires
        apply_gamut(m, g, i, gv, lv, depth) == Ok::<PModel, PErr>(mdl),
    ensures
        forall|k: Seq<char>|
            map_has(m.naturals, k) ==> #[trigger] map_has(mdl.naturals, k),
        forall|k: Seq<char>| map_has(m.reals, k) ==> #[trigger] map_has(mdl.reals, k),
    decreases g.len() - i,
{
    if i < g.len() {
        let step = apply_entry(m, g[i], gv, lv, depth);
        let m2 = step->Ok_0;
        assert forall|k: Seq<char>| map_has(m.naturals, k) implies #[trigger] map_has(
            m2.naturals,
            k,
        ) by {
            if m2.naturals != m.naturals {
                match g[i] {
                    OpParameter::Natural { key, default } => {
                        crate::kv::lemma_map_set_keeps_has(
                            m.naturals,
                            key@,
                            map_val(m2.naturals, key@),
                            k,
                        );
                        assert(map_has(m2.naturals, k)) by {
                            match chase_outcome(gv, lv, key@, depth) {
                                LookupResult::Found(v) => {
                                    crate::kv::lemma_map_set_keeps_has(
                                        m.naturals,
                                        key@,
                                        natural_of(v)->Some_0,
                                        k,
                                    );
                                },
                                LookupResult::Defaulted(v) => {
                                    crate::kv::lemma_map_set_keeps_has(
                                        m.naturals,
                                        key@,
                                        natural_of(v)->Some_0,
                                        k,
                                    );
                                },
                                LookupResult::Missing => {
                                    crate::kv::lemma_map_set_keeps_has(
                                        m.naturals,
                                        key@,
                                        default->Some_0,
                                        k,
                                    );
                                },
                                _ => {},
                            }
                        }
                    },
                    _ => {},
                }
            }
        }
        assert forall|k: Seq<char>| map_has(m.reals, k) implies #[trigger] map_has(
            m2.reals,
            k,
        ) by {
            if m2.reals != m.reals {
                match g[i] {
                    OpParameter::Real { key, default } => {
                        assert(map_has(m2.reals, k)) by {
                            match chase_outcome(gv, lv, key@, depth) {
                                LookupResult::Found(v) => {
                                    crate::kv::lemma_map_set_keeps_has(m.reals, key@, v, k);
                                },
                                LookupResult::Defaulted(v) => {
                                    crate::kv::lemma_map_set_keeps_has(m.reals, key@, v, k);
                                },
                                LookupResult::Missing => {
                                    crate::kv::lemma_map_set_keeps_has(
                                        m.reals,
                                        key@,
                                        default->Some_0@,
                                        k,
                                    );
                                },
                                _ => {},
                            }
                        }
                    },
                    _ => {},
                }
            }
        }
        lemma_gamut_ok_keeps(m2, g, i + 1, gv, lv, depth, mdl);
    }
}

/// A schema application that succeeds has filled every natural and real
/// entry the schema declares.
pub proof fn lemma_gamut_ok_sets(
    m: PModel,
    g: Seq<OpParameter>,
    i: int,
    gv: Seq<(Seq<char>, Seq<char>)>,
    lv: Seq<(Seq<char>, Seq<char>)>,
    depth: nat,
    mdl: PModel,
    j: int,
)
    requires
        apply_gamut(m, g, i, gv, lv, depth) == Ok::<PModel, PErr>(mdl),
        i <= j < g.len(),
    ensures
        g[j] matches OpParameter::Natural { key, default } ==> map_has(mdl.naturals, key@),
        g[j] matches OpParameter::Real { key, default } ==> map_has(mdl.reals, key@),
    decreases j - i,
{
    let step = apply_entry(m, g[i], gv, lv, depth);
    let m2 = step->Ok_0;
    if i < j {
        lemma_gamut_ok_sets(m2, g, i + 1, gv, lv, depth, mdl, j);
    } else {
        match g[j] {
            OpParameter::Natural { key, default } => {
                assert(map_has(m2.naturals, key@)) by {
                    crate::kv::lemma_map_find(m2.naturals, key@);
                    if !map_has(m2.naturals, key@) {
                        lemma_set_key_present(m.naturals, key@);
                    }
                }
            },
            OpParameter::Real { key, default } => {
                assert(map_has(m2.reals, key@)) by {
                    crate::kv::lemma_map_find(m2.reals, key@);
                    if !map_has(m2.reals, key@) {
                        lemma_set_key_present(m.reals, key@);
                    }
                }
            },
            _ => {},
        }
        lemma_gamut_ok_keeps(m2, g, i + 1, gv, lv, depth, mdl);
    }
}

/// After `map_set(m, k, v)` the key `k` is present, whatever `v`.
proof fn lemma_set_key_present<V>(m: Seq<(Seq<char>, V)>, k: Seq<char>)
    ensures
        forall|v: V| #[trigger] map_has(map_set(m, k, v), k),
{
    assert forall|v: V| #[trigger] map_has(map_set(m, k, v), k) by {
        crate::kv::lemma_map_find(m, k);
        let n = map_set(m, k, v);
        if map_has(m, k) {
            assert(n[crate::kv::map_find(m, k)].0 == k);
            crate::kv::lemma_map_has_witness(n, k, crate::kv::map_find(m, k));
        } else {
            assert(n[m.len() as int].0 == k);
            crate::kv::lemma_map_has_witness(n, k, m.len() as int);
        }
    }
}

/// The value of the last pair stored under `k`, as a map built by
/// insertions would read it.
pub open spec fn last_val(l: Seq<(Seq<char>, Seq<char>)>, k: Seq<char>) -> Option<Seq<char>>
    decreases l.len(),
{
    if l.len() == 0 {
        None
    } else if l.last().0 == k {
        Some(l.last().1)
    } else {
        last_val(l.drop_last(), k)
    }
}

/// The operator name a step's locals declare, `unknown` where none does.
pub open spec fn name_of(lv: Seq<(Seq<char>, Seq<char>)>) -> Seq<char> {
    match last_val(lv, "name"@) {
        Some(v) => v,
        None => "unknown"@,
    }
}

/// The keys of a schema, in order.
pub open spec fn gamut_keys(g: Seq<OpParameter>) -> Seq<Seq<char>> {
    Seq::new(g.len(), |i: int| entry_key(g[i]))
}

/// The keys the caller supplied that the schema does not declare, in first
/// appearance order, without repeats; the operator name is no parameter.
pub open spec fn ignored_of(lv: Seq<(Seq<char>, Seq<char>)>, keys: Seq<Seq<char>>) -> Seq<
    Seq<char>,
>
    decreases lv.len(),
{
    if lv.len() == 0 {
        Seq::empty()
    } else {
        let pre = ignored_of(lv.drop_last(), keys);
        let k = lv.last().0;
        if k != "name"@ && !keys.contains(k) && !pre.contains(k) {
            pre.push(k)
        } else {
            pre
        }
    }
}

/// The element-wise views of a natural-number store.
pub open spec fn nat_views(s: Seq<(String, usize)>) -> Seq<(Seq<char>, usize)> {
    Seq::new(s.len(), |i: int| (s[i].0@, s[i].1))
}

/// The element-wise views of an integer store.
pub open spec fn int_views(s: Seq<(String, i64)>) -> Seq<(Seq<char>, i64)> {
    Seq::new(s.len(), |i: int| (s[i].0@, s[i].1))
}

/// The element-wise views of a series store.
pub open spec fn series_views(s: Seq<(String, Vec<String>)>) -> Seq<(Seq<char>, Seq<Seq<char>>)> {
    Seq::new(s.len(), |i: int| (s[i].0@, str_views(s[i].1@)))
}

fn nset(m: &mut Vec<(String, usize)>, k: &str, v: usize)
    requires
        unique_keys(nat_views(old(m)@)),
    ensures
        nat_views(final(m)@) == map_set(nat_views(old(m)@), k@, v),
        unique_keys(nat_views(final(m)@)),
{
    let ghost mv = nat_views(old(m)@);
    let mut i: usize = 0;
    while i < m.len()
        invariant
            i <= m.len(),
            m@ == old(m)@,
            mv == nat_views(m@),
            unique_keys(mv),
            forall|j: int| #![trigger mv[j]] 0 <= j < i ==> mv[j].0 != k@,
        decreases m.len() - i,
    {
        let hit = {
            let entry = &m[i];
            proof {
                assert(mv[i as int] == (m@[i as int].0@, m@[i as int].1));
            }
            str_eq(entry.0.as_str(), k)
        };
        if hit {
            proof {
                crate::kv::lemma_map_find_unique(mv, k@, i as int);
            }
            m.set(i, (String::from_str(k), v));
            proof {
                assert(nat_views(m@) =~= map_set(mv, k@, v));
                lemma_map_set_props(mv, k@, v, k@);
            }
            return ;
        }
        i = i + 1;
    }
    proof {
        crate::kv::lemma_map_find_unique(mv, k@, mv.len() as int);
    }
    m.push((String::from_str(k), v));
    proof {
        assert(nat_views(m@) =~= map_set(mv, k@, v));
        lemma_map_set_props(mv, k@, v, k@);
    }
}

fn iset(m: &mut Vec<(String, i64)>, k: &str, v: i64)
    requires
        unique_keys(int_views(old(m)@)),
    ensures
        int_views(final(m)@) == map_set(int_views(old(m)@), k@, v),
        unique_keys(int_views(final(m)@)),
{
    let ghost mv = int_views(old(m)@);
    let mut i: usize = 0;
    while i < m.len()
        invariant
            i <= m.len(),
            m@ == old(m)@,
            mv == int_views(m@),
            unique_keys(mv),
            forall|j: int| #![trigger mv[j]] 0 <= j < i ==> mv[j].0 != k@,
        decreases m.len() - i,
    {
        let hit = {
            let entry = &m[i];
            proof {
                assert(mv[i as int] == (m@[i as int].0@, m@[i as int].1));
            }
            str_eq(entry.0.as_str(), k)
        };
        if hit {
            proof {
                crate::kv::lemma_map_find_unique(mv, k@, i as int);
            }
            m.set(i, (String::from_str(k), v));
            proof {
                assert(int_views(m@) =~= map_set(mv, k@, v));
                lemma_map_set_props(mv, k@, v, k@);
            }
            return ;
        }
        i = i + 1;
    }
    proof {
        crate::kv::lemma_map_find_unique(mv, k@, mv.len() as int);
    }
    m.push((String::from_str(k), v));
    proof {
        assert(int_views(m@) =~= map_set(mv, k@, v));
        lemma_map_set_props(mv, k@, v, k@);
    }
}

fn serset(m: &mut Vec<(String, Vec<String>)>, k: &str, v: Vec<String>)
    requires
        unique_keys(series_views(old(m)@)),
    ensures
        series_views(final(m)@) == map_set(series_views(old(m)@), k@, str_views(v@)),
        unique_keys(series_views(final(m)@)),
{
    let ghost mv = series_views(old(m)@);
    let ghost vv = str_views(v@);
    let mut i: usize = 0;
    while i < m.len()
        invariant
            i <= m.len(),
            m@ == old(m)@,
            mv == series_views(m@),
            vv == str_views(v@),
            unique_keys(mv),
            forall|j: int| #![trigger mv[j]] 0 <= j < i ==> mv[j].0 != k@,
        decreases m.len() - i,
    {
        let hit = {
            let entry = &m[i];
            proof {
                assert(mv[i as int] == (m@[i as int].0@, str_views(m@[i as int].1@)));
            }
            str_eq(entry.0.as_str(), k)
        };
        if hit {
            proof {
                crate::kv::lemma_map_find_unique(mv, k@, i as int);
            }
            m.set(i, (String::from_str(k), v));
            proof {
                assert(series_views(m@) =~= map_set(mv, k@, vv));
                lemma_map_set_props(mv, k@, vv, k@);
            }
            return ;
        }
        i = i + 1;
    }
    proof {
        crate::kv::lemma_map_find_unique(mv, k@, mv.len() as int);
    }
    m.push((String::from_str(k), v));
    proof {
        assert(series_views(m@) =~= map_set(mv, k@, vv));
        lemma_map_set_props(mv, k@, vv, k@);
    }
}

fn strvec_contains(v: &Vec<String>, k: &str) -> (r: bool)
    ensures
        r == str_views(v@).contains(k@),
{
    let ghost vv = str_views(v@);
    let mut i: usize = 0;
    while i < v.len()
        invariant
            i <= v.len(),
            vv == str_views(v@),
            forall|j: int| 0 <= j < i ==> #[trigger] vv[j] != k@,
        decreases v.len() - i,
    {
        proof {
            assert(vv[i as int] == v@[i as int]@);
        }
        if str_eq(v[i].as_str(), k) {
            proof {
                assert(vv.contains(k@));
            }
            return true;
        }
        i = i + 1;
    }
    proof {
        if vv.contains(k@) {
            let w = choose|j: int| 0 <= j < vv.len() && vv[j] == k@;
            assert(vv[w] != k@);
        }
    }
    false
}

fn badd(s: &mut Vec<String>, k: &str)
    ensures
        str_views(final(s)@) == bool_add(str_views(old(s)@), k@),
{
    if !strvec_contains(s, k) {
        s.push(String::from_str(k));
        proof {
            assert(str_views(s@) =~= str_views(old(s)@).push(k@));
        }
    }
}

fn gamut_has_key(g: &[OpParameter], k: &str) -> (r: bool)
    ensures
        r == gamut_keys(g@).contains(k@),
{
    let ghost keys = gamut_keys(g@);
    let mut i: usize = 0;
    while i < g.len()
        invariant
            i <= g.len(),
            keys == gamut_keys(g@),
            forall|j: int| 0 <= j < i ==> #[trigger] keys[j] != k@,
        decreases g.len() - i,
    {
        let hit = match &g[i] {
            OpParameter::Flag { key } => str_eq(key.as_str(), k),
            OpParameter::Natural { key, default } => str_eq(key.as_str(), k),
            OpParameter::Integer { key, default } => str_eq(key.as_str(), k),
            OpParameter::Real { key, default } => str_eq(key.as_str(), k),
            OpParameter::Series { key, default } => str_eq(key.as_str(), k),
            OpParameter::Text { key, default } => str_eq(key.as_str(), k),
        };
        proof {
            assert(keys[i as int] == entry_key(g@[i as int]));
        }
        if hit {
            proof {
                assert(keys.contains(k@));
            }
            return true;
        }
        i = i + 1;
    }
    proof {
        if keys.contains(k@) {
            let w = choose|j: int| 0 <= j < keys.len() && keys[j] == k@;
            assert(keys[w] != k@);
        }
    }
    false
}

/// Resolve one key against the scopes, with at most `depth` indirection
/// hops: the errors are a syntax error for an indirection that runs off
/// the scopes and a recursion error for an exhausted bound.
fn chase(
    globals: &Vec<(String, String)>,
    locals: &Vec<(String, String)>,
    key: &str,
    depth: usize,
) -> (r: Result<Option<String>, Error>)
    ensures
        match chase_outcome(pair_views(globals@), pair_views(locals@), key@, depth as nat) {
            LookupResult::Found(v) => r matches Ok(o) && o matches Some(s) && s@ == v,
            LookupResult::Defaulted(d) => r matches Ok(o) && o matches Some(s) && s@ == d,
            LookupResult::Missing => r matches Ok(o) && o is None,
            LookupResult::Incomplete => r matches Err(e) && e matches Error::Syntax(d) && d@
                == "Incomplete definition for '"@ + trim_spec(key@) + "'"@,
            LookupResult::TooDeep(at) => r matches Err(e) && e matches Error::Recursion(a, b) && a@
                == trim_spec(key@) && b@ == at,
        },
{
    let kc = str_to_chars(key);
    let kt = trim_chars(&kc);
    let mut hay: Vec<(String, String)> = Vec::new();
    let ghost both = pair_views(globals@) + pair_views(locals@);
    let mut i: usize = locals.len();
    while i > 0
        invariant
            i <= locals@.len(),
            both == pair_views(globals@) + pair_views(locals@),
            hay@.len() == locals@.len() - i,
            forall|q: int|
                0 <= q < hay@.len() ==> #[trigger] pair_views(hay@)[q] == both[both.len() - 1 - q],
        decreases i,
    {
        i = i - 1;
        let e = &locals[i];
        let ghost pre = hay@;
        hay.push((e.0.clone(), e.1.clone()));
        proof {
            assert(both[both.len() - 1 - (hay@.len() - 1)] == pair_views(locals@)[i as int]);
            assert(pair_views(locals@)[i as int] == (locals@[i as int].0@, locals@[i as int].1@));
            assert(pair_views(hay@)[hay@.len() - 1] == (locals@[i as int].0@,
            locals@[i as int].1@));
            assert forall|q: int| 0 <= q < hay@.len() - 1 implies #[trigger] pair_views(hay@)[q]
                == both[both.len() - 1 - q] by {
                assert(pair_views(hay@)[q] == pair_views(pre)[q]);
            }
        }
    }
    let mut i2: usize = globals.len();
    while i2 > 0
        invariant
            i2 <= globals@.len(),
            both == pair_views(globals@) + pair_views(locals@),
            hay@.len() == locals@.len() + (globals@.len() - i2),
            forall|q: int|
                0 <= q < hay@.len() ==> #[trigger] pair_views(hay@)[q] == both[both.len() - 1 - q],
        decreases i2,
    {
        i2 = i2 - 1;
        let e = &globals[i2];
        let ghost pre = hay@;
        hay.push((e.0.clone(), e.1.clone()));
        proof {
            assert(both[both.len() - 1 - (hay@.len() - 1)] == pair_views(globals@)[i2 as int]);
            assert(pair_views(globals@)[i2 as int] == (globals@[i2 as int].0@,
            globals@[i2 as int].1@));
            assert(pair_views(hay@)[hay@.len() - 1] == (globals@[i2 as int].0@,
            globals@[i2 as int].1@));
            assert forall|q: int| 0 <= q < hay@.len() - 1 implies #[trigger] pair_views(hay@)[q]
                == both[both.len() - 1 - q] by {
                assert(pair_views(hay@)[q] == pair_views(pre)[q]);
            }
        }
    }
    proof {
        assert(pair_views(hay@) =~= vhaystack(pair_views(globals@), pair_views(locals@)));
        assert(kt@ == trim_spec(key@));
    }
    match exec_lookup(&hay, &kt, depth) {
        Resolution::Found(v) => Ok(Some(chars_to_string(&v))),
        Resolution::Defaulted(v) => Ok(Some(chars_to_string(&v))),
        Resolution::Missing => Ok(None),
        Resolution::Incomplete => {
            let mut m = String::from_str("Incomplete definition for '");
            let kts = chars_to_string(&kt);
            m.append(kts.as_str());
            m.append("'");
            Err(Error::Syntax(m))
        },
        Resolution::TooDeep(n) => {
            let kts = chars_to_string(&kt);
            let at = chars_to_string(&n);
            Err(Error::Recursion(kts, at))
        },
    }
}

/// The typed result of applying a schema to one step's raw parameters:
/// fixed slots for the universally used values, and per-type stores for
/// operator-specific ones. Angular slots hold degree text; converting and
/// filling them is the constructors' business.
#[derive(Debug)]
pub struct ParsedParameters {
    pub name: String,
    pub ellps: Vec<String>,
    pub lat: Vec<String>,
    pub lon: Vec<String>,
    pub x: Vec<String>,
    pub y: Vec<String>,
    pub k: Vec<String>,
    pub boolean: Vec<String>,
    pub natural: Vec<(String, usize)>,
    pub integer: Vec<(String, i64)>,
    pub real: Vec<(String, String)>,
    pub series: Vec<(String, Vec<String>)>,
    pub text: Vec<(String, String)>,
    pub ignored: Vec<String>,
}

impl ParsedParameters {
    /// Every store keeps its keys unique.
    pub open spec fn wf(self) -> bool {
        unique_keys(nat_views(self.natural@)) && unique_keys(int_views(self.integer@))
            && unique_keys(pair_views(self.real@)) && unique_keys(series_views(self.series@))
            && unique_keys(pair_views(self.text@))
    }

    /// Apply a schema to one step's raw parameters. Each declared key is
    /// resolved against {step-local over pipeline-global}, chased through
    /// indirections, and coerced; a key the caller supplied but the schema
    /// does not declare lands in `ignored`.
    pub fn new(parameters: &RawParameters, gamut: &[OpParameter]) -> (r: Result<
        ParsedParameters,
        Error,
    >)
        ensures
            ({
                let lv = local_args_spec(parameters.definition@);
                let gv = pair_views(parameters.globals@);
                let depth = parameters.recursion_depth as nat;
                let out = apply_gamut(empty_model(), gamut@, 0, gv, lv, depth);
                match r {
                    Ok(p) => out matches Ok(mdl) && {
                        &&& p.wf()
                        &&& str_views(p.boolean@) == mdl.booleans
                        &&& nat_views(p.natural@) == mdl.naturals
                        &&& int_views(p.integer@) == mdl.integers
                        &&& pair_views(p.real@) == mdl.reals
                        &&& series_views(p.series@) == mdl.series
                        &&& pair_views(p.text@) == mdl.texts
                        &&& p.name@ == name_of(lv)
                        &&& str_views(p.ignored@) == ignored_of(lv, gamut_keys(gamut@))
                        &&& p.ellps@.len() == 2
                        &&& p.ellps@[0]@ == "GRS80"@
                        &&& p.ellps@[1]@ == "GRS80"@
                        &&& p.lat@.len() == 4 && p.lon@.len() == 4 && p.x@.len() == 4
                            && p.y@.len() == 4 && p.k@.len() == 4
                        &&& forall|j: int| 0 <= j < 4 ==> (#[trigger] p.lat@[j]@) == "0"@
                        &&& forall|j: int| 0 <= j < 4 ==> (#[trigger] p.lon@[j]@) == "0"@
                        &&& forall|j: int| 0 <= j < 4 ==> (#[trigger] p.x@[j]@) == "0"@
                        &&& forall|j: int| 0 <= j < 4 ==> (#[trigger] p.y@[j]@) == "0"@
                        &&& forall|j: int| 0 <= j < 4 ==> (#[trigger] p.k@[j]@) == "0"@
                    },
                    Err(e) => out matches Err(pe) && match pe {
                        PErr::Missing(kk) => e matches Error::MissingParam(s) && s@ == kk,
                        PErr::Bad(kk, vv) => e matches Error::BadParam(s, w) && s@ == kk && w@
                            == vv,
                        PErr::Incomplete(kk) => e matches Error::Syntax(d) && d@
                            == "Incomplete definition for '"@ + trim_spec(kk) + "'"@,
                        PErr::TooDeep(kk, at) => e matches Error::Recursion(a, b) && a@
                            == trim_spec(kk) && b@ == at,
                    },
                }
            }),
    {
        let locals = GysArgs::step_to_local_args(parameters.definition.as_str());
        let ghost lv = local_args_spec(parameters.definition@);
        let ghost gv = pair_views(parameters.globals@);
        let ghost depth = parameters.recursion_depth as nat;
        let mut booleans: Vec<String> = Vec::new();
        let mut naturals: Vec<(String, usize)> = Vec::new();
        let mut integers: Vec<(String, i64)> = Vec::new();
        let mut reals: Vec<(String, String)> = Vec::new();
        let mut seriesv: Vec<(String, Vec<String>)> = Vec::new();
        let mut texts: Vec<(String, String)> = Vec::new();
        let ghost mut mcur: PModel = empty_model();
        let mut i: usize = 0;
        proof {
            assert(str_views(booleans@) =~= mcur.booleans);
            assert(nat_views(naturals@) =~= mcur.naturals);
            assert(int_views(integers@) =~= mcur.integers);
            assert(pair_views(reals@) =~= mcur.reals);
            assert(series_views(seriesv@) =~= mcur.series);
            assert(pair_views(texts@) =~= mcur.texts);
        }
        while i < gamut.len()
            invariant
                i <= gamut.len(),
                lv == local_args_spec(parameters.definition@),
                gv == pair_views(parameters.globals@),
                depth == parameters.recursion_depth as nat,
                pair_views(locals@) == lv,
                str_views(booleans@) == mcur.booleans,
                nat_views(naturals@) == mcur.naturals,
                int_views(integers@) == mcur.integers,
                pair_views(reals@) == mcur.reals,
                series_views(seriesv@) == mcur.series,
                pair_views(texts@) == mcur.texts,
                unique_keys(mcur.naturals),
                unique_keys(mcur.integers),
                unique_keys(mcur.reals),
                unique_keys(mcur.series),
                unique_keys(mcur.texts),
                apply_gamut(empty_model(), gamut@, 0, gv, lv, depth) == apply_gamut(
                    mcur,
                    gamut@,
                    i as int,
                    gv,
                    lv,
                    depth,
                ),
            decreases gamut.len() - i,
        {
            let ghost mold = mcur;
            let entry = &gamut[i];
            match entry {
                OpParameter::Flag { key } => {
                    match chase(&parameters.globals, &locals, key.as_str(), parameters.recursion_depth) {
                        Err(e) => {
                            return Err(e);
                        },
                        Ok(Some(v)) => {
                            let vc = str_to_chars(v.as_str());
                            if vc.len() == 0 || word_true(&vc) {
                                badd(&mut booleans, key.as_str());
                                proof {
                                    mcur = PModel { booleans: bool_add(mold.booleans, key@), ..mold };
                                }
                            }
                        },
                        Ok(None) => {
                        },
                    }
                },
                OpParameter::Natural { key, default } => {
                    match chase(&parameters.globals, &locals, key.as_str(), parameters.recursion_depth) {
                        Err(e) => {
                            return Err(e);
                        },
                        Ok(Some(v)) => {
                            let vc = str_to_chars(v.as_str());
                            match parse_usize(&vc) {
                                Some(n) => {
                                    nset(&mut naturals, key.as_str(), n);
                                    proof {
                                        mcur = PModel {
                                            naturals: map_set(mold.naturals, key@, n),
                                            ..mold
                                        };
                                    }
                                },
                                None => {
                                    return Err(Error::BadParam(key.clone(), v));
                                },
                            }
                        },
                        Ok(None) => {
                            match default {
                                Some(d) => {
                                    nset(&mut naturals, key.as_str(), *d);
                                    proof {
                                        mcur = PModel {
                                            naturals: map_set(mold.naturals, key@, *d),
                                            ..mold
                                        };
                                    }
                                },
                                None => {
                                    return Err(Error::MissingParam(key.clone()));
                                },
                            }
                        },
                    }
                },
                OpParameter::Integer { key, default } => {
                    match chase(&parameters.globals, &locals, key.as_str(), parameters.recursion_depth) {
                        Err(e) => {
                            return Err(e);
                        },
                        Ok(Some(v)) => {
                            let vc = str_to_chars(v.as_str());
                            match parse_i64(&vc) {
                                Some(n) => {
                                    iset(&mut integers, key.as_str(), n);
                                    proof {
                                        mcur = PModel {
                                            integers: map_set(mold.integers, key@, n),
                                            ..mold
                                        };
                                    }
                                },
                                None => {
                                    return Err(Error::BadParam(key.clone(), v));
                                },
                            }
                        },
                        Ok(None) => {
                            match default {
                                Some(d) => {
                                    iset(&mut integers, key.as_str(), *d);
                                    proof {
                                        mcur = PModel {
                                            integers: map_set(mold.integers, key@, *d),
                                            ..mold
                                        };
                                    }
                                },
                                None => {
                                    return Err(Error::MissingParam(key.clone()));
                                },
                            }
                        },
                    }
                },
                OpParameter::Real { key, default } => {
                    match chase(&parameters.globals, &locals, key.as_str(), parameters.recursion_depth) {
                        Err(e) => {
                            return Err(e);
                        },
                        Ok(Some(v)) => {
                            let vc = str_to_chars(v.as_str());
                            if is_real_token_chars(&vc) {
                                sset(&mut reals, key.as_str(), v.as_str());
                                proof {
                                    mcur = PModel { reals: map_set(mold.reals, key@, v@), ..mold };
                                }
                            } else {
                                return Err(Error::BadParam(key.clone(), v));
                            }
                        },
                        Ok(None) => {
                            match default {
                                Some(d) => {
                                    sset(&mut reals, key.as_str(), d.as_str());
                                    proof {
                                        mcur = PModel { reals: map_set(mold.reals, key@, d@), ..mold };
                                    }
                                },
                                None => {
                                    return Err(Error::MissingParam(key.clone()));
                                },
                            }
                        },
                    }
                },
                OpParameter::Series { key, default } => {
                    match chase(&parameters.globals, &locals, key.as_str(), parameters.recursion_depth) {
                        Err(e) => {
                            return Err(e);
                        },
                        Ok(Some(v)) => {
                            let vc = str_to_chars(v.as_str());
                            match split_series(&vc) {
                                Some(elems) => {
                                    serset(&mut seriesv, key.as_str(), elems);
                                    proof {
                                        mcur = PModel {
                                            series: map_set(
                                                mold.series,
                                                key@,
                                                split_char_spec(v@, ','),
                                            ),
                                            ..mold
                                        };
                                    }
                                },
                                None => {
                                    return Err(Error::BadParam(key.clone(), v));
                                },
                            }
                        },
                        Ok(None) => {
                            match default {
                                Some(d) => {
                                    if d.as_str().is_empty() {
                                    } else {
                                        let dc = str_to_chars(d.as_str());
                                        match split_series(&dc) {
                                            Some(elems) => {
                                                serset(&mut seriesv, key.as_str(), elems);
                                                proof {
                                                    mcur = PModel {
                                                        series: map_set(
                                                            mold.series,
                                                            key@,
                                                            split_char_spec(d@, ','),
                                                        ),
                                                        ..mold
                                                    };
                                                }
                                            },
                                            None => {
                                                return Err(Error::BadParam(key.clone(), d.clone()));
                                            },
                                        }
                                    }
                                },
                                None => {
                                    return Err(Error::MissingParam(key.clone()));
                                },
                            }
                        },
                    }
                },
                OpParameter::Text { key, default } => {
                    match chase(&parameters.globals, &locals, key.as_str(), parameters.recursion_depth) {
                        Err(e) => {
                            return Err(e);
                        },
                        Ok(Some(v)) => {
                            sset(&mut texts, key.as_str(), v.as_str());
                            proof {
                                mcur = PModel { texts: map_set(mold.texts, key@, v@), ..mold };
                            }
                        },
                        Ok(None) => {
                            match default {
                                Some(d) => {
                                    sset(&mut texts, key.as_str(), d.as_str());
                                    proof {
                                        mcur = PModel { texts: map_set(mold.texts, key@, d@), ..mold };
                                    }
                                },
                                None => {
                                    return Err(Error::MissingParam(key.clone()));
                                },
                            }
                        },
                    }
                },
            }
            i = i + 1;
        }
        let name = find_name(&locals);
        let ignored = collect_ignored(&locals, gamut);
        let mut ellps: Vec<String> = Vec::new();
        ellps.push(String::from_str("GRS80"));
        ellps.push(String::from_str("GRS80"));
        let lat = zero_slots();
        let lon = zero_slots();
        let x = zero_slots();
        let y = zero_slots();
        let k = zero_slots();
        Ok(
            ParsedParameters {
                name,
                ellps,
                lat,
                lon,
                x,
                y,
                k,
                boolean: booleans,
                natural: naturals,
                integer: integers,
                real: reals,
                series: seriesv,
                text: texts,
                ignored,
            },
        )
    }
}

/// Copy a string list.
fn clone_strvec(v: &Vec<String>) -> (r: Vec<String>)
    ensures
        r@ == v@,
{
    let mut r: Vec<String> = Vec::new();
    let mut i: usize = 0;
    while i < v.len()
        invariant
            i <= v.len(),
            r@ == v@.take(i as int),
        decreases v.len() - i,
    {
        r.push(v[i].clone());
        proof {
            assert(v@.take(i + 1 as int) =~= v@.take(i as int).push(v@[i as int]));
            assert(r@ =~= v@.take(i + 1 as int));
        }
        i = i + 1;
    }
    proof {
        assert(v@.take(v@.len() as int) =~= v@);
    }
    r
}

// Accessors: what one step's parsed parameters hold under a key.
impl ParsedParameters {
    /// Whether a flag was set.
    pub fn boolean(&self, key: &str) -> (r: bool)
        ensures
            r == str_views(self.boolean@).contains(key@),
    {
        strvec_contains(&self.boolean, key)
    }

    /// The natural number stored under `key`, or a missing-parameter error.
    pub fn natural(&self, key: &str) -> (r: Result<usize, Error>)
        ensures
            match r {
                Ok(v) => map_has(nat_views(self.natural@), key@) && v == map_val(
                    nat_views(self.natural@),
                    key@,
                ),
                Err(e) => !map_has(nat_views(self.natural@), key@) && (e matches
                    Error::MissingParam(s) && s@ == key@),
            },
    {
        let ghost mv = nat_views(self.natural@);
        let mut i: usize = 0;
        while i < self.natural.len()
            invariant
                i <= self.natural@.len(),
                mv == nat_views(self.natural@),
                forall|j: int| #![trigger mv[j]] 0 <= j < i ==> mv[j].0 != key@,
            decreases self.natural.len() - i,
        {
            let entry = &self.natural[i];
            proof {
                assert(mv[i as int] == (self.natural@[i as int].0@, self.natural@[i as int].1));
            }
            if str_eq(entry.0.as_str(), key) {
                proof {
                    crate::kv::lemma_map_find_unique(mv, key@, i as int);
                }
                return Ok(entry.1);
            }
            i = i + 1;
        }
        proof {
            crate::kv::lemma_map_find_unique(mv, key@, mv.len() as int);
        }
        Err(Error::MissingParam(String::from_str(key)))
    }

    /// The integer stored under `key`, or a missing-parameter error.
    pub fn integer(&self, key: &str) -> (r: Result<i64, Error>)
        ensures
            match r {
                Ok(v) => map_has(int_views(self.integer@), key@) && v == map_val(
                    int_views(self.integer@),
                    key@,
                ),
                Err(e) => !map_has(int_views(self.integer@), key@) && (e matches
                    Error::MissingParam(s) && s@ == key@),
            },
    {
        let ghost mv = int_views(self.integer@);
        let mut i: usize = 0;
        while i < self.integer.len()
            invariant
                i <= self.integer@.len(),
                mv == int_views(self.integer@),
                forall|j: int| #![trigger mv[j]] 0 <= j < i ==> mv[j].0 != key@,
            decreases self.integer.len() - i,
        {
            let entry = &self.integer[i];
            proof {
                assert(mv[i as int] == (self.integer@[i as int].0@, self.integer@[i as int].1));
            }
            if str_eq(entry.0.as_str(), key) {
                proof {
                    crate::kv::lemma_map_find_unique(mv, key@, i as int);
                }
                return Ok(entry.1);
            }
            i = i + 1;
        }
        proof {
            crate::kv::lemma_map_find_unique(mv, key@, mv.len() as int);
        }
        Err(Error::MissingParam(String::from_str(key)))
    }

    /// The numeric text stored under `key`, or a missing-parameter error.
    pub fn real_text(&self, key: &str) -> (r: Result<String, Error>)
        ensures
            match r {
                Ok(v) => map_has(pair_views(self.real@), key@) && v@ == map_val(
                    pair_views(self.real@),
                    key@,
                ),
                Err(e) => !map_has(pair_views(self.real@), key@) && (e matches
                    Error::MissingParam(s) && s@ == key@),
            },
    {
        match sget(&self.real, key) {
            Some(v) => Ok(v.clone()),
            None => Err(Error::MissingParam(String::from_str(key))),
        }
    }

    /// The series stored under `key`, or a missing-parameter error.
    pub fn series(&self, key: &str) -> (r: Result<Vec<String>, Error>)
        ensures
            match r {
                Ok(v) => map_has(series_views(self.series@), key@) && str_views(v@) == map_val(
                    series_views(self.series@),
                    key@,
                ),
                Err(e) => !map_has(series_views(self.series@), key@) && (e matches
                    Error::MissingParam(s) && s@ == key@),
            },
    {
        let ghost mv = series_views(self.series@);
        let mut i: usize = 0;
        while i < self.series.len()
            invariant
                i <= self.series@.len(),
                mv == series_views(self.series@),
                forall|j: int| #![trigger mv[j]] 0 <= j < i ==> mv[j].0 != key@,
            decreases self.series.len() - i,
        {
            let entry = &self.series[i];
            proof {
                assert(mv[i as int] == (self.series@[i as int].0@, str_views(
                    self.series@[i as int].1@,
                )));
            }
            if str_eq(entry.0.as_str(), key) {
                proof {
                    crate::kv::lemma_map_find_unique(mv, key@, i as int);
                }
                return Ok(clone_strvec(&entry.1));
            }
            i = i + 1;
        }
        proof {
            crate::kv::lemma_map_find_unique(mv, key@, mv.len() as int);
        }
        Err(Error::MissingParam(String::from_str(key)))
    }

    /// The text stored under `key`, or a missing-parameter error.
    pub fn text(&self, key: &str) -> (r: Result<String, Error>)
        ensures
            match r {
                Ok(v) => map_has(pair_views(self.text@), key@) && v@ == map_val(
                    pair_views(self.text@),
                    key@,
                ),
                Err(e) => !map_has(pair_views(self.text@), key@) && (e matches
                    Error::MissingParam(s) && s@ == key@),
            },
    {
        match sget(&self.text, key) {
            Some(v) => Ok(v.clone()),
            None => Err(Error::MissingParam(String::from_str(key))),
        }
    }

    /// The keys the caller supplied that the schema did not declare.
    pub fn ignored(&self) -> (r: Vec<String>)
        ensures
            r@ == self.ignored@,
    {
        clone_strvec(&self.ignored)
    }

    /// An ellipsoid slot, by name.
    pub fn ellps(&self, index: usize) -> (r: &String)
        requires
            index < self.ellps@.len(),
        ensures
            *r == self.ellps@[index as int],
    {
        &self.ellps[index]
    }

    /// An easting-offset slot, as numeric text.
    pub fn x(&self, index: usize) -> (r: &String)
        requires
            index < self.x@.len(),
        ensures
            *r == self.x@[index as int],
    {
        &self.x[index]
    }

    /// A northing-offset slot, as numeric text.
    pub fn y(&self, index: usize) -> (r: &String)
        requires
            index < self.y@.len(),
        ensures
            *r == self.y@[index as int],
    {
        &self.y[index]
    }

    /// A latitude slot, as degree text.
    pub fn lat(&self, index: usize) -> (r: &String)
        requires
            index < self.lat@.len(),
        ensures
            *r == self.lat@[index as int],
    {
        &self.lat[index]
    }

    /// A longitude slot, as degree text.
    pub fn lon(&self, index: usize) -> (r: &String)
        requires
            index < self.lon@.len(),
        ensures
            *r == self.lon@[index as int],
    {
        &self.lon[index]
    }

    /// A scale slot, as numeric text.
    pub fn k(&self, index: usize) -> (r: &String)
        requires
            index < self.k@.len(),
        ensures
            *r == self.k@[index as int],
    {
        &self.k[index]
    }
}

/// Four slots of the zero default.
fn zero_slots() -> (r: Vec<String>)
    ensures
        r@.len() == 4,
        forall|j: int| 0 <= j < 4 ==> (#[trigger] r@[j]@) == "0"@,
{
    let mut r: Vec<String> = Vec::new();
    r.push(String::from_str("0"));
    r.push(String::from_str("0"));
    r.push(String::from_str("0"));
    r.push(String::from_str("0"));
    r
}

/// Split a series value on commas; `None` where an element does not read
/// as a real token.
fn split_series(v: &Vec<char>) -> (r: Option<Vec<String>>)
    ensures
        match r {
            Some(elems) => series_ok(v@) && str_views(elems@) == split_char_spec(v@, ','),
            None => !series_ok(v@),
        },
{
    let pieces = split_chars(v, ',');
    let ghost pview = split_char_spec(v@, ',');
    let mut elems: Vec<String> = Vec::new();
    let mut i: usize = 0;
    proof {
        assert(str_views(elems@) =~= pview.take(0));
    }
    while i < pieces.len()
        invariant
            i <= pieces.len(),
            pview == split_char_spec(v@, ','),
            seq_views(pieces@) == pview,
            str_views(elems@) == pview.take(i as int),
            forall|j: int| 0 <= j < i ==> is_real_token(#[trigger] pview[j]),
        decreases pieces.len() - i,
    {
        proof {
            assert(seq_views(pieces@)[i as int] == pieces@[i as int]@);
        }
        if !is_real_token_chars(&pieces[i]) {
            proof {
                assert(!is_real_token(pview[i as int]));
            }
            return None;
        }
        let sstr = chars_to_string(&pieces[i]);
        let ghost sv = sstr@;
        let ghost pre = elems@;
        elems.push(sstr);
        proof {
            assert(str_views(elems@) =~= str_views(pre).push(sv));
            assert(pview.take(i + 1 as int) =~= pview.take(i as int).push(pview[i as int]));
            assert(sv == pview[i as int]);
        }
        i = i + 1;
    }
    proof {
        assert(pview.take(pview.len() as int) =~= pview);
    }
    Some(elems)
}

/// The declared operator name: the value last stored under `name`.
pub fn find_name(locals: &Vec<(String, String)>) -> (r: String)
    ensures
        r@ == name_of(pair_views(locals@)),
{
    let ghost lv = pair_views(locals@);
    let mut i: usize = locals.len();
    proof {
        assert(lv.take(locals@.len() as int) =~= lv);
    }
    while i > 0
        invariant
            i <= locals@.len(),
            lv == pair_views(locals@),
            last_val(lv, "name"@) == last_val(lv.take(i as int), "name"@),
        decreases i,
    {
        i = i - 1;
        let e = &locals[i];
        proof {
            assert(lv[i as int] == (locals@[i as int].0@, locals@[i as int].1@));
            assert(lv.take(i + 1 as int).last() == lv[i as int]);
            assert(lv.take(i + 1 as int).drop_last() =~= lv.take(i as int));
        }
        if str_eq(e.0.as_str(), "name") {
            return e.1.clone();
        }
    }
    proof {
        assert(lv.take(0) =~= Seq::<(Seq<char>, Seq<char>)>::empty());
    }
    String::from_str("unknown")
}

/// The locally supplied keys the schema does not declare.
fn collect_ignored(locals: &Vec<(String, String)>, gamut: &[OpParameter]) -> (r: Vec<String>)
    ensures
        str_views(r@) == ignored_of(pair_views(locals@), gamut_keys(gamut@)),
{
    let ghost lv = pair_views(locals@);
    let ghost keys = gamut_keys(gamut@);
    let mut r: Vec<String> = Vec::new();
    let mut i: usize = 0;
    proof {
        assert(lv.take(0) =~= Seq::<(Seq<char>, Seq<char>)>::empty());
        assert(str_views(r@) =~= ignored_of(lv.take(0), keys));
    }
    while i < locals.len()
        invariant
            i <= locals@.len(),
            lv == pair_views(locals@),
            keys == gamut_keys(gamut@),
            str_views(r@) == ignored_of(lv.take(i as int), keys),
        decreases locals.len() - i,
    {
        let e = &locals[i];
        proof {
            assert(lv[i as int] == (locals@[i as int].0@, locals@[i as int].1@));
            assert(lv.take(i + 1 as int).last() == lv[i as int]);
            assert(lv.take(i + 1 as int).drop_last() =~= lv.take(i as int));
        }
        if !str_eq(e.0.as_str(), "name") && !gamut_has_key(gamut, e.0.as_str())
            && !strvec_contains(&r, e.0.as_str()) {
            r.push(e.0.clone());
            proof {
                assert(str_views(r@) =~= ignored_of(lv.take(i as int), keys).push(lv[i as int].0));
            }
        }
        i = i + 1;
    }
    proof {
        assert(lv.take(lv.len() as int) =~= lv);
    }
    r
}

} // verus!
