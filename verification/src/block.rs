//! The block (document) form of the definition language, §-for-§ the
//! second surface syntax: a step list whose scalars are typed values. The
//! host parses the document with its YAML reader and hands the plain
//! values here; rendering them into the canonical shorthand, and the
//! equivalence of the two forms at the step level, are the library's own
//! logic.

use vstd::prelude::*;
use vstd::string::*;
use crate::txt::{
    is_space_char, lemma_find_space_unique, tokens_spec, join_with, join_chars, replace_pair_spec,
    dec_string_of_int, i64_to_chars, str_to_chars, chars_to_string, push_all, seq_views,
};
use crate::gys::canon_step;

verus! {

/// A scalar argument value of the block form.
pub enum BlockValue {
    Integer(i64),
    Real(String),
    Boolean(bool),
    Text(String),
}

/// One step of a block definition: the operator name and its arguments,
/// in declared order.
pub struct BlockStep {
    pub name: String,
    pub args: Vec<(String, BlockValue)>,
}

/// The text a block scalar contributes to the canonical form: an integer
/// as decimal text, a boolean as `true` or `false`, a real or text scalar
/// as it stands.
pub open spec fn block_value_text(v: BlockValue) -> Seq<char> {
    match v {
        BlockValue::Integer(i) => dec_string_of_int(i as int),
        BlockValue::Real(s) => s@,
        BlockValue::Boolean(b) => if b {
            "true"@
        } else {
            "false"@
        },
        BlockValue::Text(s) => s@,
    }
}

/// The ` key:value` pieces a step's arguments contribute; an argument
/// whose value renders empty contributes nothing.
pub open spec fn block_args_canon(args: Seq<(String, BlockValue)>) -> Seq<char>
    decreases args.len(),
{
    if args.len() == 0 {
        Seq::empty()
    } else {
        let vt = block_value_text(args[0].1);
        let rest = block_args_canon(args.skip(1));
        if vt.len() == 0 {
            rest
        } else {
            seq![' '] + args[0].0@ + seq![':'] + vt + rest
        }
    }
}

/// One block step rendered in the canonical shorthand form `name k:v k:v`.
pub open spec fn block_step_canon(s: BlockStep) -> Seq<char> {
    s.name@ + block_args_canon(s.args@)
}

fn value_text(v: &BlockValue) -> (r: Vec<char>)
    ensures
        r@ == block_value_text(*v),
{
    match v {
        BlockValue::Integer(i) => i64_to_chars(*i),
        BlockValue::Real(s) => str_to_chars(s.as_str()),
        BlockValue::Boolean(b) => if *b {
            str_to_chars("true")
        } else {
            str_to_chars("false")
        },
        BlockValue::Text(s) => str_to_chars(s.as_str()),
    }
}

fn step_canon_chars(s: &BlockStep) -> (r: Vec<char>)
    ensures
        r@ == block_step_canon(*s),
{
    let mut out = str_to_chars(s.name.as_str());
    let ghost av = s.args@;
    let mut i: usize = 0;
    proof {
        assert(av.skip(0) =~= av);
        assert(block_step_canon(*s) =~= out@ + block_args_canon(av));
    }
    while i < s.args.len()
        invariant
            i <= s.args@.len(),
            av == s.args@,
            block_step_canon(*s) == out@ + block_args_canon(av.skip(i as int)),
        decreases s.args.len() - i,
    {
        let ghost suf = av.skip(i as int);
        proof {
            assert(suf[0] == av[i as int]);
            assert(suf.skip(1) =~= av.skip(i + 1 as int));
        }
        let vt = value_text(&s.args[i].1);
        if vt.len() > 0 {
            let ghost pre = out@;
            out.push(' ');
            push_all(&mut out, &str_to_chars(s.args[i].0.as_str()));
            out.push(':');
            push_all(&mut out, &vt);
            proof {
                assert(out@ =~= pre + (seq![' '] + av[i as int].0@ + seq![':'] + vt@));
                assert(pre + (seq![' '] + av[i as int].0@ + seq![':'] + vt@ + block_args_canon(
                    av.skip(i + 1 as int),
                )) =~= out@ + block_args_canon(av.skip(i + 1 as int)));
            }
        }
        i = i + 1;
    }
    proof {
        assert(av.skip(av.len() as int) =~= Seq::<(String, BlockValue)>::empty());
    }
    out
}

/// Render a block definition's steps into the canonical shorthand: each
/// step as `name k:v k:v`, joined by pipes. A single-step document — the
/// top-level key as the operator name — is the one-element case.
pub fn block_steps_to_gys(steps: &Vec<BlockStep>) -> (r: String)
    ensures
        r@ == join_with(
            Seq::new(steps@.len(), |i: int| block_step_canon(steps@[i])),
            " | "@,
        ),
{
    let mut rendered: Vec<Vec<char>> = Vec::new();
    let mut i: usize = 0;
    while i < steps.len()
        invariant
            i <= steps@.len(),
            rendered@.len() == i,
            forall|j: int|
                0 <= j < i ==> (#[trigger] rendered@[j])@ == block_step_canon(steps@[j]),
        decreases steps.len() - i,
    {
        rendered.push(step_canon_chars(&steps[i]));
        i = i + 1;
    }
    let mut sep: Vec<char> = Vec::new();
    sep.push(' ');
    sep.push('|');
    sep.push(' ');
    proof {
        lemma_block_pipe_sep();
        assert(sep@ =~= " | "@);
        assert(seq_views(rendered@) =~= Seq::new(
            steps@.len(),
            |i: int| block_step_canon(steps@[i]),
        ));
    }
    let joined = join_chars(&rendered, &sep);
    chars_to_string(&joined)
}

/// The characters of the canonical step separator.
proof fn lemma_block_pipe_sep()
    ensures
        " | "@ =~= seq![' ', '|', ' '],
{
    reveal_strlit(" | ");
}

/// A piece of canonical text: nonempty, without whitespace or colons.
pub open spec fn plain_piece(t: Seq<char>) -> bool {
    t.len() > 0 && forall|j: int|
        0 <= j < t.len() ==> !is_space_char(#[trigger] t[j]) && t[j] != ':'
}

/// Arguments whose keys are plain pieces and whose rendered values are
/// plain pieces or empty.
pub open spec fn args_wf(args: Seq<(String, BlockValue)>) -> bool {
    forall|i: int|
        0 <= i < args.len() ==> plain_piece((#[trigger] args[i]).0@) && (block_value_text(
            args[i].1,
        ).len() == 0 || plain_piece(block_value_text(args[i].1)))
}

/// A block step already in canonical clothing: its name is a plain piece
/// and its arguments are well-formed.
pub open spec fn block_step_wf(s: BlockStep) -> bool {
    plain_piece(s.name@) && args_wf(s.args@)
}

/// The `key:value` tokens a step's arguments contribute, in order.
pub open spec fn args_tokens(args: Seq<(String, BlockValue)>) -> Seq<Seq<char>>
    decreases args.len(),
{
    if args.len() == 0 {
        Seq::empty()
    } else {
        let vt = block_value_text(args[0].1);
        let rest = args_tokens(args.skip(1));
        if vt.len() == 0 {
            rest
        } else {
            seq![args[0].0@ + seq![':'] + vt] + rest
        }
    }
}

proof fn lemma_args_wf_skip(args: Seq<(String, BlockValue)>)
    requires
        args_wf(args),
        args.len() > 0,
    ensures
        args_wf(args.skip(1)),
{
    assert forall|i: int| 0 <= i < args.skip(1).len() implies plain_piece(
        (#[trigger] args.skip(1)[i]).0@,
    ) && (block_value_text(args.skip(1)[i].1).len() == 0 || plain_piece(
        block_value_text(args.skip(1)[i].1),
    )) by {
        assert(args.skip(1)[i] == args[i + 1]);
    }
}

/// Tokenizing a rendered step gives back its pieces: the head piece, then
/// one token per contributing argument.
proof fn lemma_tokens_of(p: Seq<char>, args: Seq<(String, BlockValue)>)
    requires
        p.len() > 0,
        forall|j: int| 0 <= j < p.len() ==> !is_space_char(#[trigger] p[j]),
        args_wf(args),
    ensures
        tokens_spec(p + block_args_canon(args)) == seq![p] + args_tokens(args),
    decreases args.len(),
{
    let t = p + block_args_canon(args);
    if args.len() == 0 {
        assert(t =~= p);
        assert forall|j: int| 0 <= j < p.len() implies !is_space_char(p[j]) by {}
        lemma_find_space_unique(p, p.len() as int);
        assert(p.take(p.len() as int) =~= p);
        assert(p.skip(p.len() as int) =~= Seq::<char>::empty());
        assert(tokens_spec(Seq::<char>::empty()) == Seq::<Seq<char>>::empty());
        assert(tokens_spec(p) == seq![p.take(p.len() as int)] + tokens_spec(
            p.skip(p.len() as int),
        ));
        assert(tokens_spec(p) =~= seq![p]);
    } else {
        let vt = block_value_text(args[0].1);
        lemma_args_wf_skip(args);
        if vt.len() == 0 {
            assert(t =~= p + block_args_canon(args.skip(1)));
            lemma_tokens_of(p, args.skip(1));
        } else {
            let kk = args[0].0@ + seq![':'] + vt;
            assert(t =~= p + seq![' '] + kk + block_args_canon(args.skip(1)));
            assert forall|j: int| 0 <= j < p.len() implies !is_space_char(#[trigger] t[j]) by {
                assert(t[j] == p[j]);
            }
            assert(t[p.len() as int] == ' ');
            lemma_find_space_unique(t, p.len() as int);
            assert(t.take(p.len() as int) =~= p);
            let after = t.skip(p.len() as int);
            assert(after[0] == ' ');
            assert(after.skip(1) =~= kk + block_args_canon(args.skip(1)));
            assert(kk.len() > 0);
            assert forall|j: int| 0 <= j < kk.len() implies !is_space_char(#[trigger] kk[j]) by {
                if j < args[0].0@.len() {
                    assert(kk[j] == args[0].0@[j]);
                } else if j == args[0].0@.len() {
                    assert(kk[j] == ':');
                } else {
                    assert(kk[j] == vt[j - args[0].0@.len() - 1]);
                }
            }
            lemma_tokens_of(kk, args.skip(1));
            assert(tokens_spec(t) == seq![t.take(p.len() as int)] + tokens_spec(after));
            assert(after.len() > 0 && is_space_char(after[0]));
            assert(tokens_spec(after) == tokens_spec(after.skip(1)));
            assert(tokens_spec(after.skip(1)) == seq![kk] + args_tokens(args.skip(1)));
            assert(tokens_spec(t) =~= seq![p] + (seq![kk] + args_tokens(args.skip(1))));
            assert(seq![p] + (seq![kk] + args_tokens(args.skip(1))) =~= seq![p] + args_tokens(
                args,
            ));
        }
    }
}

/// Joining those tokens with single spaces rebuilds the rendered step.
proof fn lemma_join_tokens(p: Seq<char>, args: Seq<(String, BlockValue)>)
    requires
        p.len() > 0,
        args_wf(args),
    ensures
        join_with(seq![p] + args_tokens(args), seq![' ']) == p + block_args_canon(args),
    decreases args.len(),
{
    if args.len() == 0 {
        assert(seq![p] + args_tokens(args) =~= seq![p]);
        assert(join_with(seq![p], seq![' ']) == p);
        assert(p + block_args_canon(args) =~= p);
    } else {
        let vt = block_value_text(args[0].1);
        lemma_args_wf_skip(args);
        if vt.len() == 0 {
            lemma_join_tokens(p, args.skip(1));
            assert(p + block_args_canon(args) =~= p + block_args_canon(args.skip(1)));
        } else {
            let kk = args[0].0@ + seq![':'] + vt;
            assert(kk.len() > 0);
            lemma_join_tokens(kk, args.skip(1));
            let list = seq![p] + args_tokens(args);
            assert(list.len() >= 2) by {
                assert(args_tokens(args).len() >= 1);
            }
            assert(list[0] == p);
            assert(list.skip(1) =~= seq![kk] + args_tokens(args.skip(1)));
            assert(join_with(list, seq![' ']) == p + seq![' '] + join_with(
                list.skip(1),
                seq![' '],
            ));
            assert(p + seq![' '] + (kk + block_args_canon(args.skip(1))) =~= p
                + block_args_canon(args));
        }
    }
}

/// Replacing `: ` by `:` changes nothing in text where a colon is never
/// followed by a space.
proof fn lemma_replace_pair_id(t: Seq<char>)
    requires
        forall|j: int| 0 <= j < t.len() - 1 ==> !(#[trigger] t[j] == ':' && t[j + 1] == ' '),
    ensures
        replace_pair_spec(t, ':', ' ', ':') == t,
    decreases t.len(),
{
    if t.len() > 0 {
        assert forall|j: int| 0 <= j < t.skip(1).len() - 1 implies !(#[trigger] t.skip(1)[j] == ':'
            && t.skip(1)[j + 1] == ' ') by {
            assert(t.skip(1)[j] == t[j + 1] && t.skip(1)[j + 1] == t[j + 2]);
        }
        lemma_replace_pair_id(t.skip(1));
        assert(seq![t[0]] + t.skip(1) =~= t);
    }
}

/// A rendered step never puts a space after a colon.
proof fn lemma_no_colon_space(p: Seq<char>, args: Seq<(String, BlockValue)>)
    requires
        p.len() > 0,
        forall|j: int| 0 <= j < p.len() ==> !is_space_char(#[trigger] p[j]),
        p.last() != ':',
        args_wf(args),
    ensures
        forall|j: int|
            0 <= j < (p + block_args_canon(args)).len() - 1 ==> !(#[trigger] (p
                + block_args_canon(args))[j] == ':' && (p + block_args_canon(args))[j + 1] == ' '),
    decreases args.len(),
{
    let t = p + block_args_canon(args);
    if args.len() == 0 {
        assert forall|j: int| 0 <= j < t.len() - 1 implies !(#[trigger] t[j] == ':' && t[j + 1]
            == ' ') by {
            assert(t[j + 1] == p[j + 1]);
        }
    } else {
        let vt = block_value_text(args[0].1);
        lemma_args_wf_skip(args);
        if vt.len() == 0 {
            lemma_no_colon_space(p, args.skip(1));
            assert(t =~= p + block_args_canon(args.skip(1)));
        } else {
            let kk = args[0].0@ + seq![':'] + vt;
            assert(kk.len() > 0);
            assert forall|j: int| 0 <= j < kk.len() implies !is_space_char(#[trigger] kk[j]) by {
                if j < args[0].0@.len() {
                    assert(kk[j] == args[0].0@[j]);
                } else if j == args[0].0@.len() {
                    assert(kk[j] == ':');
                } else {
                    assert(kk[j] == vt[j - args[0].0@.len() - 1]);
                }
            }
            assert(kk.last() == vt.last());
            assert(kk.last() != ':');
            lemma_no_colon_space(kk, args.skip(1));
            let t2 = kk + block_args_canon(args.skip(1));
            assert(t =~= p + seq![' '] + t2);
            assert forall|j: int| 0 <= j < t.len() - 1 implies !(#[trigger] t[j] == ':' && t[j + 1]
                == ' ') by {
                if j < p.len() - 1 {
                    assert(t[j] == p[j] && t[j + 1] == p[j + 1]);
                } else if j == p.len() - 1 {
                    assert(t[j] == p.last());
                } else if j == p.len() {
                    assert(t[j] == ' ');
                } else {
                    assert(t[j] == t2[j - p.len() - 1] && t[j + 1] == t2[j - p.len()]);
                }
            }
        }
    }
}

/// Shorthand/block equivalence at the step level: a well-formed block
/// step renders to text the shorthand canonicalizer fixes, so a
/// definition written in either surface form yields the same canonical
/// step, and so the same constructed operator.
pub proof fn lemma_block_step_equivalence(s: BlockStep)
    requires
        block_step_wf(s),
    ensures
        canon_step(block_step_canon(s)) == block_step_canon(s),
{
    let t = block_step_canon(s);
    lemma_tokens_of(s.name@, s.args@);
    lemma_join_tokens(s.name@, s.args@);
    lemma_no_colon_space(s.name@, s.args@);
    assert(join_with(tokens_spec(t), seq![' ']) == t);
    lemma_replace_pair_id(t);
}

} // verus!
