//! Key/value arguments for one operator, with `^`-indirection: a value
//! `^other` makes the key an alias for `other`, chased through the map up
//! to a bound that rules out unbounded recursion.

use vstd::prelude::*;
use vstd::string::*;
use crate::kv::{
    pair_views, unique_keys, map_has, map_val, map_set, map_set_all, lemma_map_set_all_push, sget,
    sset,
};
use crate::txt::{str_eq, str_to_chars, chars_to_string};

verus! {

/// Where a bounded chase through `^`-indirections came out.
pub struct ChaseOutcome {
    /// The resolved value, or the default where the chain missed or the
    /// bound was exhausted.
    pub value: Seq<char>,
    /// Every (key, stored value) pair visited, in order.
    pub trace: Seq<(Seq<char>, Seq<char>)>,
    /// Whether the bound cut the chase short.
    pub exhausted: bool,
}

/// A lookup in `m` that follows `^`-indirections: a missing key yields
/// `default`, a value `^other` restarts at `other`, and each hop spends one
/// unit of `fuel`; with the fuel gone the default stands in.
pub open spec fn chase_spec(
    m: Seq<(Seq<char>, Seq<char>)>,
    key: Seq<char>,
    default: Seq<char>,
    fuel: nat,
) -> ChaseOutcome
    decreases fuel,
{
    if !map_has(m, key) {
        ChaseOutcome { value: default, trace: Seq::empty(), exhausted: false }
    } else {
        let arg = map_val(m, key);
        if arg.len() > 0 && arg[0] == '^' {
            if fuel == 0 {
                ChaseOutcome { value: default, trace: seq![(key, arg)], exhausted: true }
            } else {
                let rec = chase_spec(m, arg.skip(1), default, (fuel - 1) as nat);
                ChaseOutcome {
                    value: rec.value,
                    trace: seq![(key, arg)] + rec.trace,
                    exhausted: rec.exhausted,
                }
            }
        } else {
            ChaseOutcome { value: arg, trace: seq![(key, arg)], exhausted: false }
        }
    }
}

/// A chase that came to rest within its bound is settled: granting any
/// further fuel changes nothing, so every chain of indirections resolves
/// within a bounded depth.
pub proof fn lemma_chase_more_fuel(
    m: Seq<(Seq<char>, Seq<char>)>,
    key: Seq<char>,
    default: Seq<char>,
    f1: nat,
    f2: nat,
)
    requires
        f1 <= f2,
        !chase_spec(m, key, default, f1).exhausted,
    ensures
        chase_spec(m, key, default, f2) == chase_spec(m, key, default, f1),
    decreases f1,
{
    if map_has(m, key) {
        let arg = map_val(m, key);
        if arg.len() > 0 && arg[0] == '^' {
            if f1 == 0 {
                assert(chase_spec(m, key, default, f1).exhausted);
            } else {
                lemma_chase_more_fuel(m, arg.skip(1), default, (f1 - 1) as nat, (f2 - 1) as nat);
            }
        }
    }
}

/// The arguments of one operator invocation, with a record of which keys
/// were read (`used`) and of every key visited while chasing indirections
/// (`all_used`).
pub struct OperatorArgs {
    pub args: Vec<(String, String)>,
    pub used: Vec<(String, String)>,
    pub all_used: Vec<(String, String)>,
}

impl OperatorArgs {
    /// Each of the three maps keeps its keys unique.
    pub open spec fn wf(self) -> bool {
        unique_keys(pair_views(self.args@)) && unique_keys(pair_views(self.used@)) && unique_keys(
            pair_views(self.all_used@),
        )
    }

    pub fn new() -> (r: OperatorArgs)
        ensures
            r.wf(),
            r.args@.len() == 0,
            r.used@.len() == 0,
            r.all_used@.len() == 0,
    {
        OperatorArgs { args: Vec::new(), used: Vec::new(), all_used: Vec::new() }
    }

    /// Store one argument, overwriting any earlier value for the key.
    pub fn insert(&mut self, key: &str, value: &str)
        requires
            old(self).wf(),
        ensures
            final(self).wf(),
            pair_views(final(self).args@) == map_set(pair_views(old(self).args@), key@, value@),
            final(self).used@ == old(self).used@,
            final(self).all_used@ == old(self).all_used@,
    {
        sset(&mut self.args, key, value);
    }

    /// Store every argument of `additional`, in order.
    pub fn append(&mut self, additional: &OperatorArgs)
        requires
            old(self).wf(),
        ensures
            final(self).wf(),
            pair_views(final(self).args@) == map_set_all(
                pair_views(old(self).args@),
                pair_views(additional.args@),
            ),
            final(self).used@ == old(self).used@,
            final(self).all_used@ == old(self).all_used@,
    {
        let ghost base = pair_views(old(self).args@);
        let ghost addv = pair_views(additional.args@);
        let mut i: usize = 0;
        proof {
            assert(addv.take(0) =~= Seq::<(Seq<char>, Seq<char>)>::empty());
        }
        while i < additional.args.len()
            invariant
                i <= additional.args@.len(),
                addv == pair_views(additional.args@),
                self.wf(),
                self.used@ == old(self).used@,
                self.all_used@ == old(self).all_used@,
                pair_views(self.args@) == map_set_all(base, addv.take(i as int)),
            decreases additional.args.len() - i,
        {
            let e = &additional.args[i];
            proof {
                assert(addv[i as int] == (additional.args@[i as int].0@,
                additional.args@[i as int].1@));
            }
            sset(&mut self.args, e.0.as_str(), e.1.as_str());
            proof {
                assert(addv.take(i + 1 as int) =~= addv.take(i as int).push(addv[i as int]));
                lemma_map_set_all_push(base, addv.take(i as int), addv[i as int]);
            }
            i = i + 1;
        }
        proof {
            assert(addv.take(addv.len() as int) =~= addv);
        }
    }

    /// The chase itself: look the key up, follow `^`-aliases, record every
    /// visited pair in `all_used`, and fall back to `default` where the
    /// chain misses or the bound — the number of arguments — is exhausted.
    fn value_recursive_search(&mut self, key: &str, default: &str) -> (r: String)
        requires
            old(self).wf(),
        ensures
            final(self).wf(),
            final(self).args@ == old(self).args@,
            final(self).used@ == old(self).used@,
            ({
                let c = chase_spec(
                    pair_views(old(self).args@),
                    key@,
                    default@,
                    old(self).args@.len() as nat,
                );
                r@ == c.value && pair_views(final(self).all_used@) == map_set_all(
                    pair_views(old(self).all_used@),
                    c.trace,
                )
            }),
    {
        let ghost m = pair_views(self.args@);
        let ghost base = pair_views(self.all_used@);
        let ghost full_fuel = self.args@.len() as nat;
        let mut needle: String = String::from_str(key);
        let mut fuel: usize = self.args.len();
        let ghost mut done: Seq<(Seq<char>, Seq<char>)> = Seq::empty();
        proof {
            assert(map_set_all(base, done) == base);
        }
        loop
            invariant
                self.wf(),
                self.args@ == old(self).args@,
                self.used@ == old(self).used@,
                m == pair_views(self.args@),
                base == pair_views(old(self).all_used@),
                full_fuel == old(self).args@.len() as nat,
                fuel <= full_fuel,
                pair_views(self.all_used@) == map_set_all(base, done),
                chase_spec(m, key@, default@, full_fuel).value == chase_spec(
                    m,
                    needle@,
                    default@,
                    fuel as nat,
                ).value,
                chase_spec(m, key@, default@, full_fuel).trace == done + chase_spec(
                    m,
                    needle@,
                    default@,
                    fuel as nat,
                ).trace,
            decreases fuel,
        {
            let found = match sget(&self.args, needle.as_str()) {
                Some(a) => Some(a.clone()),
                None => None,
            };
            match found {
                None => {
                    proof {
                        let cur = chase_spec(m, needle@, default@, fuel as nat);
                        assert(cur.trace =~= Seq::<(Seq<char>, Seq<char>)>::empty());
                        assert(done + cur.trace =~= done);
                    }
                    return String::from_str(default);
                },
                Some(arg) => {
                    let ghost pre_done = done;
                    sset(&mut self.all_used, needle.as_str(), arg.as_str());
                    proof {
                        done = done.push((needle@, arg@));
                        lemma_map_set_all_push(base, pre_done, (needle@, arg@));
                    }
                    let ac = str_to_chars(arg.as_str());
                    if ac.len() > 0 && ac[0] == '^' {
                        if fuel == 0 {
                            proof {
                                let cur = chase_spec(m, needle@, default@, 0nat);
                                assert(cur.trace =~= seq![(needle@, arg@)]);
                                assert(done + Seq::<(Seq<char>, Seq<char>)>::empty() =~= done);
                                assert(pre_done + cur.trace =~= done);
                            }
                            return String::from_str(default);
                        }
                        let mut nn: Vec<char> = Vec::new();
                        let mut k: usize = 1;
                        while k < ac.len()
                            invariant
                                1 <= k <= ac.len(),
                                nn@ == ac@.subrange(1, k as int),
                            decreases ac.len() - k,
                        {
                            nn.push(ac[k]);
                            proof {
                                assert(ac@.subrange(1, k + 1 as int) =~= ac@.subrange(
                                    1,
                                    k as int,
                                ).push(ac@[k as int]));
                            }
                            k = k + 1;
                        }
                        proof {
                            assert(nn@ =~= ac@.skip(1));
                            let cur = chase_spec(m, needle@, default@, fuel as nat);
                            let rec = chase_spec(m, arg@.skip(1), default@, (fuel - 1) as nat);
                            assert(pre_done + (seq![(needle@, arg@)] + rec.trace) =~= done
                                + rec.trace);
                        }
                        needle = chars_to_string(&nn);
                        fuel = fuel - 1;
                    } else {
                        proof {
                            let cur = chase_spec(m, needle@, default@, fuel as nat);
                            assert(cur.trace =~= seq![(needle@, arg@)]);
                            assert(pre_done + cur.trace =~= done);
                        }
                        return arg;
                    }
                },
            }
        }
    }

    /// The value for `key`, with `^`-aliases chased; `default` where no
    /// argument supplies one. A value actually found is recorded in `used`.
    pub fn value(&mut self, key: &str, default: &str) -> (r: String)
        requires
            old(self).wf(),
        ensures
            final(self).wf(),
            final(self).args@ == old(self).args@,
            ({
                let c = chase_spec(
                    pair_views(old(self).args@),
                    key@,
                    default@,
                    old(self).args@.len() as nat,
                );
                r@ == c.value && pair_views(final(self).all_used@) == map_set_all(
                    pair_views(old(self).all_used@),
                    c.trace,
                ) && (if c.value != default@ {
                    pair_views(final(self).used@) == map_set(
                        pair_views(old(self).used@),
                        key@,
                        c.value,
                    )
                } else {
                    final(self).used@ == old(self).used@
                })
            }),
    {
        let arg = self.value_recursive_search(key, default);
        if !str_eq(arg.as_str(), default) {
            sset(&mut self.used, key, arg.as_str());
        }
        arg
    }

    /// True where the key resolves to anything but the word `false`.
    pub fn boolean_value(&mut self, key: &str) -> (r: bool)
        requires
            old(self).wf(),
        ensures
            final(self).wf(),
            final(self).args@ == old(self).args@,
            r == (chase_spec(
                pair_views(old(self).args@),
                key@,
                "false"@,
                old(self).args@.len() as nat,
            ).value != "false"@),
    {
        let v = self.value(key, "false");
        !str_eq(v.as_str(), "false")
    }
}

} // verus!
