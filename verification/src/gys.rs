//! The "GYS" shorthand syntax: recognizing it, normalizing it to the
//! YAML-like block form, and decomposing definitions into steps and
//! key/value arguments.

use vstd::prelude::*;
use vstd::string::*;
use crate::ctx::Context;
use crate::txt::{
    find_char, lemma_find_char, lemma_find_char_unique, trim_spec,
    trim_chars, trim_match_spec, trim_match_chars, split_char_spec, split_chars, tokens_spec,
    tokens_chars, join_with, join_chars, replace_char_spec, replace_char, has_spaced_pipe,
    contains_spaced_pipe, lines_spec, lines_chars, seq_views, str_views, str_to_chars,
    chars_to_string, push_all, push_str_chars, trim_end_spec, trim_end_chars, replace_pair_spec,
    replace_pair,
};

verus! {

/// A line whose trimmed form begins with `#`.
pub open spec fn is_comment_line(l: Seq<char>) -> bool {
    trim_spec(l).len() > 0 && trim_spec(l)[0] == '#'
}

/// The lines of a definition with comment lines removed.
pub open spec fn comment_kept_lines(ls: Seq<Seq<char>>) -> Seq<Seq<char>>
    decreases ls.len(),
{
    if ls.len() == 0 {
        Seq::empty()
    } else {
        let rest = comment_kept_lines(ls.skip(1));
        if is_comment_line(ls[0]) {
            rest
        } else {
            seq![ls[0]] + rest
        }
    }
}

/// The comment-cleaned text a definition is classified and split on.
pub open spec fn cleaned_spec(s: Seq<char>) -> Seq<char> {
    trim_spec(join_with(comment_kept_lines(lines_spec(s)), seq!['\n']))
}

/// Whether a cleaned text reads as shorthand: a spaced pipe anywhere, a
/// leading or trailing pipe, a matched pair of square brackets, or a first
/// token without a trailing colon.
pub open spec fn is_gys_spec(s: Seq<char>) -> bool {
    if has_spaced_pipe(s) {
        true
    } else if s.len() > 0 && s[0] == '|' {
        true
    } else if s.len() > 0 && s.last() == '|' {
        true
    } else if s.len() > 0 && s[0] == '[' {
        s.last() == ']'
    } else if s.len() > 0 && s.last() == ']' {
        false
    } else {
        let toks = tokens_spec(s);
        !(toks.len() > 0 && toks[0].len() > 0 && toks[0].last() == ':')
    }
}

/// One argument element rendered into YAML flow style, consuming one token
/// (`k:v`, bare `k`) or two (`k:` followed by its value), at index `i` of
/// `elems`; `Err` carries the whole output for a key with no value.
pub open spec fn render_args_spec(elems: Seq<Seq<char>>, i: int) -> Result<Seq<char>, Seq<char>>
    decreases elems.len() - i,
{
    let n = elems.len() as int;
    if i >= n {
        Ok(Seq::empty())
    } else {
        let e = elems[i];
        if e.len() > 0 && e.last() == ':' {
            if i == n - 1 {
                Err("Missing value for key '"@ + e + "'"@)
            } else {
                let piece = e + seq![' '] + elems[i + 1] + (if i + 2 < n {
                    ", "@
                } else {
                    Seq::<char>::empty()
                });
                match render_args_spec(elems, i + 2) {
                    Err(m) => Err(m),
                    Ok(rest) => Ok(piece + rest),
                }
            }
        } else if find_char(e, ':') < e.len() {
            let piece = replace_char_spec(e, ':', ": "@) + (if i + 1 < n {
                ", "@
            } else {
                Seq::<char>::empty()
            });
            match render_args_spec(elems, i + 1) {
                Err(m) => Err(m),
                Ok(rest) => Ok(piece + rest),
            }
        } else {
            let piece = e + ": true"@ + (if i + 1 < n {
                ", "@
            } else {
                Seq::<char>::empty()
            });
            match render_args_spec(elems, i + 1) {
                Err(m) => Err(m),
                Ok(rest) => Ok(piece + rest),
            }
        }
    }
}

/// One step rendered into a YAML mapping entry; `Err` carries the whole
/// output for an empty step.
pub open spec fn render_step_spec(step: Seq<char>) -> Result<Seq<char>, Seq<char>> {
    let strip = trim_spec(step.take(find_char(step, '#')));
    let elems = tokens_spec(strip);
    if elems.len() == 0 {
        Err("Error: Empty step!"@)
    } else if elems.len() == 1 {
        Ok(elems[0] + ": {}"@)
    } else {
        match render_args_spec(elems, 1) {
            Err(m) => Err(m),
            Ok(args) => Ok(elems[0] + ": {"@ + args + "}"@),
        }
    }
}

/// All steps rendered in order, stopping at the first failure.
pub open spec fn render_steps_spec(steps: Seq<Seq<char>>, i: int) -> Result<
    Seq<Seq<char>>,
    Seq<char>,
>
    decreases steps.len() - i,
{
    if i >= steps.len() {
        Ok(Seq::empty())
    } else {
        match render_step_spec(steps[i]) {
            Err(m) => Err(m),
            Ok(r) => match render_steps_spec(steps, i + 1) {
                Err(m) => Err(m),
                Ok(rest) => Ok(seq![r] + rest),
            },
        }
    }
}

/// What `Context::gys_to_yaml` returns: the cleaned text unchanged where it
/// is already YAML, else the steps rendered as a YAML mapping, wrapped in a
/// `pipeline_from_gys` document when there is more than one step.
pub open spec fn gys_to_yaml_spec(s: Seq<char>) -> Seq<char> {
    let g0 = cleaned_spec(s);
    if !is_gys_spec(g0) {
        g0
    } else {
        let g = trim_match_spec(trim_match_spec(trim_match_spec(g0, '|'), '['), ']');
        let steps = split_char_spec(g, '|');
        match render_steps_spec(steps, 0) {
            Err(m) => m,
            Ok(list) => {
                let joined = join_with(list, ",\n    "@);
                if steps.len() > 1 {
                    "pipeline_from_gys: {\n  steps: [\n    "@ + joined + "\n  ]\n}"@
                } else {
                    joined
                }
            },
        }
    }
}

fn keep_comment_free_lines(ls: &Vec<Vec<char>>) -> (r: Vec<Vec<char>>)
    ensures
        seq_views(r@) == comment_kept_lines(seq_views(ls@)),
{
    let ghost full = seq_views(ls@);
    let mut r: Vec<Vec<char>> = Vec::new();
    let mut i: usize = 0;
    proof {
        assert(full.skip(0) =~= full);
        assert(seq_views(r@) + comment_kept_lines(full) =~= comment_kept_lines(full));
    }
    while i < ls.len()
        invariant
            i <= ls.len(),
            full == seq_views(ls@),
            comment_kept_lines(full) == seq_views(r@) + comment_kept_lines(full.skip(i as int)),
        decreases ls.len() - i,
    {
        let ghost suf = full.skip(i as int);
        proof {
            assert(suf[0] == full[i as int]);
            assert(full[i as int] == ls@[i as int]@);
            assert(suf.skip(1) =~= full.skip(i + 1 as int));
        }
        let t = trim_chars(&ls[i]);
        if !(t.len() > 0 && t[0] == '#') {
            let ghost pre = r@;
            let line = ls[i].clone();
            proof {
                assert(line@ =~= ls@[i as int]@);
            }
            r.push(line);
            proof {
                assert(seq_views(r@) =~= seq_views(pre).push(full[i as int]));
                assert(seq_views(pre) + (seq![full[i as int]] + comment_kept_lines(
                    full.skip(i + 1 as int),
                )) =~= seq_views(r@) + comment_kept_lines(full.skip(i + 1 as int)));
            }
        }
        i = i + 1;
    }
    proof {
        assert(full.skip(full.len() as int) =~= Seq::<Seq<char>>::empty());
        assert(seq_views(r@) + Seq::<Seq<char>>::empty() =~= seq_views(r@));
    }
    r
}

fn cleaned_chars(v: &Vec<char>) -> (r: Vec<char>)
    ensures
        r@ == cleaned_spec(v@),
{
    let ls = lines_chars(v);
    let kept = keep_comment_free_lines(&ls);
    let mut nl: Vec<char> = Vec::new();
    nl.push('\n');
    proof {
        assert(nl@ =~= seq!['\n']);
    }
    let joined = join_chars(&kept, &nl);
    trim_chars(&joined)
}

fn render_args_chars(elems: &Vec<Vec<char>>, i: usize) -> (r: Result<Vec<char>, Vec<char>>)
    ensures
        match r {
            Ok(out) => render_args_spec(seq_views(elems@), i as int) == Ok::<Seq<char>, Seq<char>>(
                out@,
            ),
            Err(m) => render_args_spec(seq_views(elems@), i as int) == Err::<Seq<char>, Seq<char>>(
                m@,
            ),
        },
    decreases elems.len() - i,
{
    let ghost vs = seq_views(elems@);
    let n = elems.len();
    if i >= n {
        let out: Vec<char> = Vec::new();
        proof {
            assert(out@ =~= Seq::<char>::empty());
        }
        return Ok(out);
    }
    let e = &elems[i];
    proof {
        assert(vs[i as int] == elems@[i as int]@);
    }
    if e.len() > 0 && e[e.len() - 1] == ':' {
        if i == n - 1 {
            let mut m = str_to_chars("Missing value for key '");
            push_all(&mut m, e);
            push_str_chars(&mut m, "'");
            proof {
                assert(m@ =~= "Missing value for key '"@ + vs[i as int] + "'"@);
            }
            return Err(m);
        }
        let mut piece: Vec<char> = Vec::new();
        push_all(&mut piece, e);
        piece.push(' ');
        push_all(&mut piece, &elems[i + 1]);
        if i + 2 < n {
            push_str_chars(&mut piece, ", ");
        }
        proof {
            assert(vs[i + 1 as int] == elems@[i + 1 as int]@);
            if i + 2 < n {
                assert(piece@ =~= vs[i as int] + seq![' '] + vs[i + 1 as int] + ", "@);
            } else {
                assert(piece@ =~= vs[i as int] + seq![' '] + vs[i + 1 as int]
                    + Seq::<char>::empty());
            }
        }
        match render_args_chars(elems, i + 2) {
            Err(m) => Err(m),
            Ok(rest) => {
                let mut out = piece;
                push_all(&mut out, &rest);
                Ok(out)
            },
        }
    } else {
        let has_colon = {
            let mut found = false;
            let mut k: usize = 0;
            while k < e.len()
                invariant
                    k <= e.len(),
                    found == exists|j: int| 0 <= j < k && e@[j] == ':',
                decreases e.len() - k,
            {
                if e[k] == ':' {
                    found = true;
                }
                k = k + 1;
            }
            found
        };
        proof {
            lemma_find_char(e@, ':');
            if has_colon {
                assert(find_char(e@, ':') < e@.len());
            } else {
                if find_char(e@, ':') < e@.len() {
                    assert(e@[find_char(e@, ':')] == ':');
                }
            }
        }
        let mut piece: Vec<char>;
        if has_colon {
            let rep = str_to_chars(": ");
            piece = replace_char(e, ':', &rep);
        } else {
            piece = Vec::new();
            push_all(&mut piece, e);
            push_str_chars(&mut piece, ": true");
        }
        if i + 1 < n {
            push_str_chars(&mut piece, ", ");
        }
        proof {
            if has_colon {
                if i + 1 < n {
                    assert(piece@ =~= replace_char_spec(vs[i as int], ':', ": "@) + ", "@);
                } else {
                    assert(piece@ =~= replace_char_spec(vs[i as int], ':', ": "@)
                        + Seq::<char>::empty());
                }
            } else {
                if i + 1 < n {
                    assert(piece@ =~= vs[i as int] + ": true"@ + ", "@);
                } else {
                    assert(piece@ =~= vs[i as int] + ": true"@ + Seq::<char>::empty());
                }
            }
        }
        match render_args_chars(elems, i + 1) {
            Err(m) => Err(m),
            Ok(rest) => {
                let mut out = piece;
                push_all(&mut out, &rest);
                Ok(out)
            },
        }
    }
}

fn render_step_chars(step: &Vec<char>) -> (r: Result<Vec<char>, Vec<char>>)
    ensures
        match r {
            Ok(out) => render_step_spec(step@) == Ok::<Seq<char>, Seq<char>>(out@),
            Err(m) => render_step_spec(step@) == Err::<Seq<char>, Seq<char>>(m@),
        },
{
    let mut k: usize = 0;
    while k < step.len() && step[k] != '#'
        invariant
            k <= step.len(),
            forall|j: int| 0 <= j < k ==> step@[j] != '#',
        decreases step.len() - k,
    {
        k = k + 1;
    }
    proof {
        if k < step.len() {
            lemma_find_char_unique(step@, '#', k as int);
        } else {
            lemma_find_char_unique(step@, '#', step@.len() as int);
        }
    }
    let mut head: Vec<char> = Vec::new();
    let mut j: usize = 0;
    while j < k
        invariant
            j <= k <= step.len(),
            head@ == step@.take(j as int),
        decreases k - j,
    {
        head.push(step[j]);
        proof {
            assert(step@.take(j + 1 as int) =~= step@.take(j as int).push(step@[j as int]));
        }
        j = j + 1;
    }
    let strip = trim_chars(&head);
    let elems = tokens_chars(&strip);
    let ghost vs = seq_views(elems@);
    if elems.len() == 0 {
        return Err(str_to_chars("Error: Empty step!"));
    }
    proof {
        assert(vs[0] == elems@[0]@);
    }
    if elems.len() == 1 {
        let mut out: Vec<char> = Vec::new();
        push_all(&mut out, &elems[0]);
        push_str_chars(&mut out, ": {}");
        proof {
            assert(out@ =~= vs[0] + ": {}"@);
        }
        return Ok(out);
    }
    match render_args_chars(&elems, 1) {
        Err(m) => Err(m),
        Ok(args) => {
            let mut out: Vec<char> = Vec::new();
            push_all(&mut out, &elems[0]);
            push_str_chars(&mut out, ": {");
            push_all(&mut out, &args);
            push_str_chars(&mut out, "}");
            proof {
                assert(out@ =~= vs[0] + ": {"@ + args@ + "}"@);
            }
            Ok(out)
        },
    }
}

fn render_steps_chars(steps: &Vec<Vec<char>>, i: usize) -> (r: Result<Vec<Vec<char>>, Vec<char>>)
    ensures
        match r {
            Ok(list) => render_steps_spec(seq_views(steps@), i as int) == Ok::<
                Seq<Seq<char>>,
                Seq<char>,
            >(seq_views(list@)),
            Err(m) => render_steps_spec(seq_views(steps@), i as int) == Err::<
                Seq<Seq<char>>,
                Seq<char>,
            >(m@),
        },
    decreases steps.len() - i,
{
    let ghost vs = seq_views(steps@);
    if i >= steps.len() {
        let list: Vec<Vec<char>> = Vec::new();
        proof {
            assert(seq_views(list@) =~= Seq::<Seq<char>>::empty());
        }
        return Ok(list);
    }
    proof {
        assert(vs[i as int] == steps@[i as int]@);
    }
    match render_step_chars(&steps[i]) {
        Err(m) => Err(m),
        Ok(r0) => {
            match render_steps_chars(steps, i + 1) {
                Err(m) => Err(m),
                Ok(rest) => {
                    let mut list: Vec<Vec<char>> = Vec::new();
                    list.push(r0);
                    let ghost r0v = list@[0]@;
                    let ghost restv = seq_views(rest@);
                    let mut rest = rest;
                    let ghost rest0 = rest@;
                    list.append(&mut rest);
                    proof {
                        assert forall|q: int| 0 <= q < seq_views(list@).len() implies seq_views(
                            list@,
                        )[q] == (seq![r0v] + restv)[q] by {
                            if q > 0 {
                                assert(list@[q] == rest0[q - 1]);
                            }
                        }
                        assert(seq_views(list@) =~= seq![r0v] + restv);
                    }
                    Ok(list)
                },
            }
        },
    }
}

impl Context {
    /// Convert the shorthand form to the YAML-like block form: each step
    /// becomes a mapping entry, bare keys become `key: true`, and a
    /// multi-step definition is wrapped in a `pipeline_from_gys` document.
    /// Text that is not shorthand comes back unchanged (without comment
    /// lines); an empty step or a key with no value yields an error text.
    pub fn gys_to_yaml(gys: &str) -> (r: String)
        ensures
            r@ == gys_to_yaml_spec(gys@),
    {
        let chars = str_to_chars(gys);
        let g0 = cleaned_chars(&chars);
        if !Context::is_gys_cleaned(&g0) {
            return chars_to_string(&g0);
        }
        let g1 = trim_match_chars(&g0, '|');
        let g2 = trim_match_chars(&g1, '[');
        let g = trim_match_chars(&g2, ']');
        let steps = split_chars(&g, '|');
        match render_steps_chars(&steps, 0) {
            Err(m) => chars_to_string(&m),
            Ok(list) => {
                let sep = str_to_chars(",\n    ");
                let joined = join_chars(&list, &sep);
                if steps.len() > 1 {
                    let mut whole = str_to_chars("pipeline_from_gys: {\n  steps: [\n    ");
                    push_all(&mut whole, &joined);
                    push_str_chars(&mut whole, "\n  ]\n}");
                    chars_to_string(&whole)
                } else {
                    chars_to_string(&joined)
                }
            },
        }
    }

    /// Whether a text reads as shorthand rather than as the block form.
    pub fn is_gys(gys: &str) -> (r: bool)
        ensures
            r == is_gys_spec(gys@),
    {
        let v = str_to_chars(gys);
        Context::is_gys_cleaned(&v)
    }

    fn is_gys_cleaned(v: &Vec<char>) -> (r: bool)
        ensures
            r == is_gys_spec(v@),
    {
        if contains_spaced_pipe(v) {
            return true;
        }
        if v.len() > 0 && v[0] == '|' {
            return true;
        }
        if v.len() > 0 && v[v.len() - 1] == '|' {
            return true;
        }
        if v.len() > 0 && v[0] == '[' {
            return v[v.len() - 1] == ']';
        }
        if v.len() > 0 && v[v.len() - 1] == ']' {
            return false;
        }
        let toks = tokens_chars(v);
        if toks.len() == 0 {
            return true;
        }
        let first = &toks[0];
        proof {
            assert(seq_views(toks@)[0] == toks@[0]@);
        }
        !(first.len() > 0 && first[first.len() - 1] == ':')
    }
}

/// A docstring line: a trimmed line beginning with two hash marks.
pub open spec fn is_doc_line(lt: Seq<char>) -> bool {
    lt.len() >= 2 && lt[0] == '#' && lt[1] == '#'
}

/// The documentation text a docstring line contributes: the line padded
/// with four spaces, its first three characters dropped, trailing
/// whitespace removed.
pub open spec fn doc_piece(lt: Seq<char>) -> Seq<char> {
    trim_end_spec((lt + seq![' ', ' ', ' ', ' ']).skip(3))
}

/// The definition text a plain line contributes: what stands before the
/// first comment mark, trimmed.
pub open spec fn body_piece(lt: Seq<char>) -> Seq<char> {
    trim_spec(lt.take(find_char(lt, '#')))
}

/// The docstring pieces of a definition's lines, in order.
pub open spec fn doc_pieces(ls: Seq<Seq<char>>) -> Seq<Seq<char>>
    decreases ls.len(),
{
    if ls.len() == 0 {
        Seq::empty()
    } else {
        let lt = trim_spec(ls[0]);
        let rest = doc_pieces(ls.skip(1));
        if is_doc_line(lt) {
            seq![doc_piece(lt)] + rest
        } else {
            rest
        }
    }
}

/// The definition pieces of a definition's lines, in order.
pub open spec fn body_pieces(ls: Seq<Seq<char>>) -> Seq<Seq<char>>
    decreases ls.len(),
{
    if ls.len() == 0 {
        Seq::empty()
    } else {
        let lt = trim_spec(ls[0]);
        let rest = body_pieces(ls.skip(1));
        if is_doc_line(lt) {
            rest
        } else {
            seq![body_piece(lt)] + rest
        }
    }
}

/// A definition with line endings normalized and outer whitespace removed.
pub open spec fn resource_all_spec(def: Seq<char>) -> Seq<char> {
    trim_spec(
        replace_char_spec(trim_spec(replace_pair_spec(def, '\r', '\n', '\n')), '\r', seq!['\n']),
    )
}

/// A resource's id: the first whitespace-separated token of the whole
/// definition, or `UNKNOWN` where there is none.
pub open spec fn resource_id_spec(def: Seq<char>) -> Seq<char> {
    let toks = tokens_spec(resource_all_spec(def));
    if toks.len() > 0 {
        toks[0]
    } else {
        "UNKNOWN"@
    }
}

/// A resource's documentation: the docstring pieces joined by newlines.
pub open spec fn resource_doc_spec(def: Seq<char>) -> Seq<char> {
    trim_spec(join_with(doc_pieces(lines_spec(resource_all_spec(def))), seq!['\n']))
}

/// One canonical step: its tokens joined by single spaces, then each
/// `key: value` fused to `key:value`.
pub open spec fn canon_step(t: Seq<char>) -> Seq<char> {
    replace_pair_spec(join_with(tokens_spec(t), seq![' ']), ':', ' ', ':')
}

/// The canonical steps of a piece list: each piece trimmed, empty pieces
/// skipped, the rest canonicalized.
pub open spec fn steps_of(pieces: Seq<Seq<char>>) -> Seq<Seq<char>>
    decreases pieces.len(),
{
    if pieces.len() == 0 {
        Seq::empty()
    } else {
        let t = trim_spec(pieces[0]);
        let rest = steps_of(pieces.skip(1));
        if t.len() == 0 {
            rest
        } else {
            seq![canon_step(t)] + rest
        }
    }
}

/// The comment-free definition text: what remains of each line joined by
/// single spaces.
pub open spec fn resource_body_spec(def: Seq<char>) -> Seq<char> {
    join_with(body_pieces(lines_spec(resource_all_spec(def))), seq![' '])
}

/// A resource's canonical steps: the comment-free definition text split on
/// pipes and canonicalized.
pub open spec fn resource_steps_spec(def: Seq<char>) -> Seq<Seq<char>> {
    steps_of(split_char_spec(resource_body_spec(def), '|'))
}

/// The raw pipe-separated pieces of a definition's comment-free text,
/// before empty pieces are dropped and the rest canonicalized.
pub fn resource_pieces(definition: &str) -> (r: Vec<Vec<char>>)
    ensures
        seq_views(r@) == split_char_spec(resource_body_spec(definition@), '|'),
{
    let d0 = str_to_chars(definition);
    let p1 = replace_pair(&d0, '\r', '\n', '\n');
    let a1 = trim_chars(&p1);
    let mut nl: Vec<char> = Vec::new();
    nl.push('\n');
    proof {
        assert(nl@ =~= seq!['\n']);
    }
    let p2 = replace_char(&a1, '\r', &nl);
    let all = trim_chars(&p2);
    let ls = lines_chars(&all);
    let ghost lview = seq_views(ls@);
    let mut body_acc: Vec<Vec<char>> = Vec::new();
    let mut i: usize = 0;
    proof {
        assert(lview.skip(0) =~= lview);
        assert(seq_views(body_acc@) + body_pieces(lview) =~= body_pieces(lview));
    }
    while i < ls.len()
        invariant
            i <= ls.len(),
            lview == seq_views(ls@),
            body_pieces(lview) == seq_views(body_acc@) + body_pieces(lview.skip(i as int)),
        decreases ls.len() - i,
    {
        let ghost suf = lview.skip(i as int);
        proof {
            assert(suf[0] == lview[i as int]);
            assert(lview[i as int] == ls@[i as int]@);
            assert(suf.skip(1) =~= lview.skip(i + 1 as int));
        }
        let lt = trim_chars(&ls[i]);
        if !(lt.len() >= 2 && lt[0] == '#' && lt[1] == '#') {
            let mut k: usize = 0;
            while k < lt.len() && lt[k] != '#'
                invariant
                    k <= lt.len(),
                    forall|j: int| 0 <= j < k ==> lt@[j] != '#',
                decreases lt.len() - k,
            {
                k = k + 1;
            }
            proof {
                if k < lt.len() {
                    lemma_find_char_unique(lt@, '#', k as int);
                } else {
                    lemma_find_char_unique(lt@, '#', lt@.len() as int);
                }
            }
            let mut head: Vec<char> = Vec::new();
            let mut j: usize = 0;
            while j < k
                invariant
                    j <= k <= lt.len(),
                    head@ == lt@.take(j as int),
                decreases k - j,
            {
                head.push(lt[j]);
                proof {
                    assert(lt@.take(j + 1 as int) =~= lt@.take(j as int).push(lt@[j as int]));
                }
                j = j + 1;
            }
            let piece = trim_chars(&head);
            let ghost pre = body_acc@;
            body_acc.push(piece);
            proof {
                assert(seq_views(body_acc@) =~= seq_views(pre).push(
                    body_piece(trim_spec(suf[0])),
                ));
                assert(seq_views(pre) + (seq![body_piece(trim_spec(suf[0]))] + body_pieces(
                    lview.skip(i + 1 as int),
                )) =~= seq_views(body_acc@) + body_pieces(lview.skip(i + 1 as int)));
            }
        }
        i = i + 1;
    }
    proof {
        assert(lview.skip(lview.len() as int) =~= Seq::<Seq<char>>::empty());
        assert(seq_views(body_acc@) + Seq::<Seq<char>>::empty() =~= seq_views(body_acc@));
    }
    let mut sp: Vec<char> = Vec::new();
    sp.push(' ');
    proof {
        assert(sp@ =~= seq![' ']);
    }
    let body = join_chars(&body_acc, &sp);
    split_chars(&body, '|')
}

/// A definition split into steps, with its id, its accumulated
/// documentation, and the globals it inherits.
#[derive(Debug, Clone)]
pub struct GysResource {
    pub id: String,
    pub doc: String,
    pub steps: Vec<String>,
    pub globals: Vec<(String, String)>,
}

impl GysResource {
    /// Normalize a definition: line endings unified, comments stripped,
    /// docstrings gathered, steps split on `|` and canonicalized to
    /// `name k:v k:v` form.
    pub fn new(definition: &str, globals: &[(String, String)]) -> (r: GysResource)
        ensures
            r.id@ == resource_id_spec(definition@),
            r.doc@ == resource_doc_spec(definition@),
            str_views(r.steps@) == resource_steps_spec(definition@),
            r.globals@ == globals@,
    {
        let d0 = str_to_chars(definition);
        let p1 = replace_pair(&d0, '\r', '\n', '\n');
        let a1 = trim_chars(&p1);
        let mut nl: Vec<char> = Vec::new();
        nl.push('\n');
        proof {
            assert(nl@ =~= seq!['\n']);
        }
        let p2 = replace_char(&a1, '\r', &nl);
        let all = trim_chars(&p2);

        let toks = tokens_chars(&all);
        let id = if toks.len() > 0 {
            proof {
                assert(seq_views(toks@)[0] == toks@[0]@);
            }
            chars_to_string(&toks[0])
        } else {
            String::from_str("UNKNOWN")
        };

        let ls = lines_chars(&all);
        let ghost lview = seq_views(ls@);
        let mut doc_acc: Vec<Vec<char>> = Vec::new();
        let mut body_acc: Vec<Vec<char>> = Vec::new();
        let mut i: usize = 0;
        proof {
            assert(lview.skip(0) =~= lview);
            assert(seq_views(doc_acc@) + doc_pieces(lview) =~= doc_pieces(lview));
            assert(seq_views(body_acc@) + body_pieces(lview) =~= body_pieces(lview));
        }
        while i < ls.len()
            invariant
                i <= ls.len(),
                lview == seq_views(ls@),
                doc_pieces(lview) == seq_views(doc_acc@) + doc_pieces(lview.skip(i as int)),
                body_pieces(lview) == seq_views(body_acc@) + body_pieces(lview.skip(i as int)),
            decreases ls.len() - i,
        {
            let ghost suf = lview.skip(i as int);
            proof {
                assert(suf[0] == lview[i as int]);
                assert(lview[i as int] == ls@[i as int]@);
                assert(suf.skip(1) =~= lview.skip(i + 1 as int));
            }
            let lt = trim_chars(&ls[i]);
            if lt.len() >= 2 && lt[0] == '#' && lt[1] == '#' {
                let mut padded = lt.clone();
                proof {
                    assert(padded@ =~= lt@);
                }
                padded.push(' ');
                padded.push(' ');
                padded.push(' ');
                padded.push(' ');
                proof {
                    assert(padded@ =~= lt@ + seq![' ', ' ', ' ', ' ']);
                }
                let mut tail: Vec<char> = Vec::new();
                let mut k: usize = 3;
                while k < padded.len()
                    invariant
                        3 <= k <= padded.len(),
                        padded@.len() >= 3,
                        tail@ == padded@.subrange(3, k as int),
                    decreases padded.len() - k,
                {
                    tail.push(padded[k]);
                    proof {
                        assert(padded@.subrange(3, k + 1 as int) =~= padded@.subrange(
                            3,
                            k as int,
                        ).push(padded@[k as int]));
                    }
                    k = k + 1;
                }
                proof {
                    assert(tail@ =~= padded@.skip(3));
                }
                let piece = trim_end_chars(&tail);
                let ghost pre = doc_acc@;
                doc_acc.push(piece);
                proof {
                    assert(seq_views(doc_acc@) =~= seq_views(pre).push(doc_piece(trim_spec(suf[0]))));
                    assert(seq_views(pre) + (seq![doc_piece(trim_spec(suf[0]))] + doc_pieces(
                        lview.skip(i + 1 as int),
                    )) =~= seq_views(doc_acc@) + doc_pieces(lview.skip(i + 1 as int)));
                }
            } else {
                let mut k: usize = 0;
                while k < lt.len() && lt[k] != '#'
                    invariant
                        k <= lt.len(),
                        forall|j: int| 0 <= j < k ==> lt@[j] != '#',
                    decreases lt.len() - k,
                {
                    k = k + 1;
                }
                proof {
                    if k < lt.len() {
                        lemma_find_char_unique(lt@, '#', k as int);
                    } else {
                        lemma_find_char_unique(lt@, '#', lt@.len() as int);
                    }
                }
                let mut head: Vec<char> = Vec::new();
                let mut j: usize = 0;
                while j < k
                    invariant
                        j <= k <= lt.len(),
                        head@ == lt@.take(j as int),
                    decreases k - j,
                {
                    head.push(lt[j]);
                    proof {
                        assert(lt@.take(j + 1 as int) =~= lt@.take(j as int).push(lt@[j as int]));
                    }
                    j = j + 1;
                }
                let piece = trim_chars(&head);
                let ghost pre = body_acc@;
                body_acc.push(piece);
                proof {
                    assert(seq_views(body_acc@) =~= seq_views(pre).push(
                        body_piece(trim_spec(suf[0])),
                    ));
                    assert(seq_views(pre) + (seq![body_piece(trim_spec(suf[0]))] + body_pieces(
                        lview.skip(i + 1 as int),
                    )) =~= seq_views(body_acc@) + body_pieces(lview.skip(i + 1 as int)));
                }
            }
            i = i + 1;
        }
        proof {
            assert(lview.skip(lview.len() as int) =~= Seq::<Seq<char>>::empty());
            assert(seq_views(doc_acc@) + Seq::<Seq<char>>::empty() =~= seq_views(doc_acc@));
            assert(seq_views(body_acc@) + Seq::<Seq<char>>::empty() =~= seq_views(body_acc@));
        }
        let mut nl2: Vec<char> = Vec::new();
        nl2.push('\n');
        proof {
            assert(nl2@ =~= seq!['\n']);
        }
        let doc_joined = join_chars(&doc_acc, &nl2);
        let doc = chars_to_string(&trim_chars(&doc_joined));

        let mut sp: Vec<char> = Vec::new();
        sp.push(' ');
        proof {
            assert(sp@ =~= seq![' ']);
        }
        let trimmed = join_chars(&body_acc, &sp);
        let pieces = split_chars(&trimmed, '|');
        let ghost pview = seq_views(pieces@);
        let mut steps: Vec<String> = Vec::new();
        let mut i2: usize = 0;
        proof {
            assert(pview.skip(0) =~= pview);
            assert(str_views(steps@) + steps_of(pview) =~= steps_of(pview));
        }
        while i2 < pieces.len()
            invariant
                i2 <= pieces.len(),
                pview == seq_views(pieces@),
                steps_of(pview) == str_views(steps@) + steps_of(pview.skip(i2 as int)),
            decreases pieces.len() - i2,
        {
            let ghost suf = pview.skip(i2 as int);
            proof {
                assert(suf[0] == pview[i2 as int]);
                assert(pview[i2 as int] == pieces@[i2 as int]@);
                assert(suf.skip(1) =~= pview.skip(i2 + 1 as int));
            }
            let t = trim_chars(&pieces[i2]);
            if t.len() > 0 {
                let ts = tokens_chars(&t);
                let mut sp2: Vec<char> = Vec::new();
                sp2.push(' ');
                proof {
                    assert(sp2@ =~= seq![' ']);
                }
                let joined = join_chars(&ts, &sp2);
                let fused = replace_pair(&joined, ':', ' ', ':');
                let ghost pre = steps@;
                steps.push(chars_to_string(&fused));
                proof {
                    assert(str_views(steps@) =~= str_views(pre).push(canon_step(trim_spec(suf[0]))));
                    assert(str_views(pre) + (seq![canon_step(trim_spec(suf[0]))] + steps_of(
                        pview.skip(i2 + 1 as int),
                    )) =~= str_views(steps@) + steps_of(pview.skip(i2 + 1 as int)));
                }
            }
            i2 = i2 + 1;
        }
        proof {
            assert(pview.skip(pview.len() as int) =~= Seq::<Seq<char>>::empty());
            assert(str_views(steps@) + Seq::<Seq<char>>::empty() =~= str_views(steps@));
        }
        let g = crate::kv::clone_pairs(globals);
        GysResource { id, doc, steps, globals: g }
    }
}

impl core::convert::From<&str> for GysResource {
    /// A resource from a bare definition, inheriting the one default
    /// `ellps: GRS80`.
    fn from(definition: &str) -> (r: GysResource)
        ensures
            r.id@ == resource_id_spec(definition@),
            r.doc@ == resource_doc_spec(definition@),
            str_views(r.steps@) == resource_steps_spec(definition@),
            r.globals@.len() == 1,
            crate::kv::pair_views(r.globals@)[0] == ("ellps"@, "GRS80"@),
    {
        let mut globals: Vec<(String, String)> = Vec::new();
        globals.push((String::from_str("ellps"), String::from_str("GRS80")));
        let r = GysResource::new(definition, globals.as_slice());
        proof {
            assert(crate::kv::pair_views(r.globals@)[0] == (r.globals@[0].0@, r.globals@[0].1@));
        }
        r
    }
}

impl vstd::std_specs::convert::FromSpecImpl<&str> for GysResource {
    open spec fn obeys_from_spec() -> bool {
        false
    }

    open spec fn from_spec(definition: &str) -> GysResource {
        arbitrary()
    }
}

/// What a scoped lookup can come to.
pub enum LookupResult {
    /// A concrete value was found.
    Found(Seq<char>),
    /// No further source supplied a value; the staged `*`-default applies.
    Defaulted(Seq<char>),
    /// The key is simply absent.
    Missing,
    /// A `^`-indirection ran off the end of the scopes.
    Incomplete,
    /// The recursion bound was exhausted mid-chase; carries the needle
    /// chased at that point.
    TooDeep(Seq<char>),
}

/// Index of the first pair whose key is `k`, or `pairs.len()` if none.
pub open spec fn find_pair(pairs: Seq<(Seq<char>, Seq<char>)>, k: Seq<char>) -> int
    decreases pairs.len(),
{
    if pairs.len() == 0 {
        0
    } else if pairs[0].0 == k {
        0
    } else {
        1 + find_pair(pairs.skip(1), k)
    }
}

pub proof fn lemma_find_pair(pairs: Seq<(Seq<char>, Seq<char>)>, k: Seq<char>)
    ensures
        0 <= find_pair(pairs, k) <= pairs.len(),
        find_pair(pairs, k) < pairs.len() ==> pairs[find_pair(pairs, k)].0 == k,
        forall|j: int| #![trigger pairs[j]] 0 <= j < find_pair(pairs, k) ==> pairs[j].0 != k,
    decreases pairs.len(),
{
    if pairs.len() > 0 && pairs[0].0 != k {
        lemma_find_pair(pairs.skip(1), k);
        assert forall|j: int| #![trigger pairs[j]] 0 <= j < find_pair(pairs, k) implies pairs[j].0
            != k by {
            if j > 0 {
                assert(pairs.skip(1)[j - 1] == pairs[j]);
            }
        }
    }
}

pub proof fn lemma_find_pair_unique(pairs: Seq<(Seq<char>, Seq<char>)>, k: Seq<char>, at: int)
    requires
        0 <= at <= pairs.len(),
        forall|j: int| #![trigger pairs[j]] 0 <= j < at ==> pairs[j].0 != k,
        at < pairs.len() ==> pairs[at].0 == k,
    ensures
        find_pair(pairs, k) == at,
{
    lemma_find_pair(pairs, k);
    let f = find_pair(pairs, k);
    if f < at {
        assert(pairs[f].0 == k);
    }
    if at < f {
        assert(pairs[at].0 == k);
    }
}

/// One scoped lookup over an ordered pair list, consumed front to back:
/// a value `^name` chases `name` through the remaining pairs, a value
/// `*text` stages `text` as a default and keeps searching for the original
/// key, and each hop spends one unit of `fuel`.
pub open spec fn lookup_spec(
    pairs: Seq<(Seq<char>, Seq<char>)>,
    needle: Seq<char>,
    key: Seq<char>,
    default: Seq<char>,
    chasing: bool,
    fuel: nat,
) -> LookupResult
    decreases pairs.len(),
{
    let f = find_pair(pairs, needle);
    if f == pairs.len() {
        if default.len() > 0 {
            LookupResult::Defaulted(default)
        } else if chasing {
            LookupResult::Incomplete
        } else {
            LookupResult::Missing
        }
    } else if 0 <= f < pairs.len() {
        let v = trim_spec(pairs[f].1);
        if v.len() > 0 && v[0] == '^' {
            if fuel == 0 {
                LookupResult::TooDeep(v.skip(1))
            } else {
                lookup_spec(pairs.skip(f + 1), v.skip(1), key, default, true, (fuel - 1) as nat)
            }
        } else if v.len() > 0 && v[0] == '*' {
            if fuel == 0 {
                LookupResult::TooDeep(key)
            } else {
                lookup_spec(pairs.skip(f + 1), key, key, v.skip(1), true, (fuel - 1) as nat)
            }
        } else {
            LookupResult::Found(v)
        }
    } else {
        LookupResult::Missing
    }
}

/// Any chain of indirections resolves within a bounded depth: with fuel at
/// least the number of pairs, the chase never exhausts it — every hop
/// consumes at least one pair — and granting more fuel changes nothing.
pub proof fn lemma_lookup_fuel_bound(
    pairs: Seq<(Seq<char>, Seq<char>)>,
    needle: Seq<char>,
    key: Seq<char>,
    default: Seq<char>,
    chasing: bool,
    f1: nat,
    f2: nat,
)
    requires
        f1 >= pairs.len(),
        f2 >= pairs.len(),
    ensures
        lookup_spec(pairs, needle, key, default, chasing, f1) == lookup_spec(
            pairs,
            needle,
            key,
            default,
            chasing,
            f2,
        ),
        !(lookup_spec(pairs, needle, key, default, chasing, f1) is TooDeep),
    decreases pairs.len(),
{
    lemma_find_pair(pairs, needle);
    let f = find_pair(pairs, needle);
    if f < pairs.len() {
        let v = trim_spec(pairs[f].1);
        if v.len() > 0 && v[0] == '^' {
            lemma_lookup_fuel_bound(
                pairs.skip(f + 1),
                v.skip(1),
                key,
                default,
                true,
                (f1 - 1) as nat,
                (f2 - 1) as nat,
            );
        } else if v.len() > 0 && v[0] == '*' {
            lemma_lookup_fuel_bound(
                pairs.skip(f + 1),
                key,
                key,
                v.skip(1),
                true,
                (f1 - 1) as nat,
                (f2 - 1) as nat,
            );
        }
    }
}

/// The haystack a `GysArgs` lookup searches: globals then locals, reversed,
/// so that locals shadow globals and later entries shadow earlier ones.
pub open spec fn gys_haystack(globals: Seq<(String, String)>, locals: Seq<(String, String)>) -> Seq<
    (Seq<char>, Seq<char>),
> {
    let both = crate::kv::pair_views(globals + locals);
    Seq::new(both.len(), |i: int| both[both.len() - 1 - i])
}

/// The outcome `GysArgs::value` reports for a key, before bookkeeping.
pub open spec fn gys_lookup(
    globals: Seq<(String, String)>,
    locals: Seq<(String, String)>,
    key: Seq<char>,
) -> LookupResult {
    let hay = gys_haystack(globals, locals);
    lookup_spec(hay, trim_spec(key), trim_spec(key), Seq::empty(), false, hay.len() as nat)
}

/// The runtime counterpart of `LookupResult`.
pub(crate) enum Resolution {
    Found(Vec<char>),
    Defaulted(Vec<char>),
    Missing,
    Incomplete,
    TooDeep(Vec<char>),
}

pub(crate) fn exec_lookup(pairs: &Vec<(String, String)>, key: &Vec<char>, fuel: usize) -> (r:
    Resolution)
    ensures
        ({
            let lr = lookup_spec(
                crate::kv::pair_views(pairs@),
                key@,
                key@,
                Seq::empty(),
                false,
                fuel as nat,
            );
            match r {
                Resolution::Found(v) => lr == LookupResult::Found(v@),
                Resolution::Defaulted(v) => lr == LookupResult::Defaulted(v@),
                Resolution::Missing => lr is Missing,
                Resolution::Incomplete => lr is Incomplete,
                Resolution::TooDeep(n) => lr == LookupResult::TooDeep(n@),
            }
        }),
{
    let ghost full = crate::kv::pair_views(pairs@);
    let mut start: usize = 0;
    let mut needle: Vec<char> = key.clone();
    let mut default: Vec<char> = Vec::new();
    let mut chasing: bool = false;
    let mut fuel_left: usize = fuel;
    proof {
        assert(needle@ =~= key@);
        assert(full.skip(0) =~= full);
    }
    loop
        invariant
            start <= pairs.len(),
            full == crate::kv::pair_views(pairs@),
            full.len() == pairs@.len(),
            lookup_spec(full, key@, key@, Seq::empty(), false, fuel as nat) == lookup_spec(
                full.skip(start as int),
                needle@,
                key@,
                default@,
                chasing,
                fuel_left as nat,
            ),
        decreases pairs.len() - start,
    {
        let ghost suf = full.skip(start as int);
        let mut j: usize = start;
        let mut found: bool = false;
        while !found && j < pairs.len()
            invariant
                start <= j <= pairs.len(),
                full == crate::kv::pair_views(pairs@),
                full.len() == pairs@.len(),
                forall|q: int| #![trigger full[q]] start <= q < j ==> full[q].0 != needle@,
                found ==> j < pairs@.len() && full[j as int].0 == needle@,
            decreases pairs.len() - j, (if found { 0int } else { 1int }),
        {
            let e = &pairs[j];
            proof {
                assert(full[j as int] == (pairs@[j as int].0@, pairs@[j as int].1@));
            }
            if crate::txt::chars_eq_str(&needle, e.0.as_str()) {
                found = true;
            } else {
                j = j + 1;
            }
        }
        proof {
            assert forall|q: int| #![trigger suf[q]] 0 <= q < j - start implies suf[q].0
                != needle@ by {
                assert(suf[q] == full[q + start]);
            }
            if found {
                assert(suf[j - start] == full[j as int]);
            }
            if j < pairs.len() && !found {
                assert(false);
            }
            lemma_find_pair_unique(suf, needle@, j - start as int);
        }
        if j == pairs.len() {
            if default.len() > 0 {
                return Resolution::Defaulted(default);
            }
            if chasing {
                return Resolution::Incomplete;
            }
            return Resolution::Missing;
        }
        let raw = {
            let e = &pairs[j];
            crate::txt::str_to_chars(e.1.as_str())
        };
        let v = trim_chars(&raw);
        proof {
            assert(full[j as int] == (pairs@[j as int].0@, pairs@[j as int].1@));
            assert(suf[j - start] == full[j as int]);
            assert(v@ == trim_spec(suf[j - start].1));
            assert(suf.skip(j - start + 1) =~= full.skip(j + 1 as int));
        }
        if v.len() > 0 && v[0] == '^' {
            if fuel_left == 0 {
                let mut nn: Vec<char> = Vec::new();
                let mut k: usize = 1;
                while k < v.len()
                    invariant
                        1 <= k <= v.len(),
                        nn@ == v@.subrange(1, k as int),
                    decreases v.len() - k,
                {
                    nn.push(v[k]);
                    proof {
                        assert(v@.subrange(1, k + 1 as int) =~= v@.subrange(1, k as int).push(
                            v@[k as int],
                        ));
                    }
                    k = k + 1;
                }
                proof {
                    assert(nn@ =~= v@.skip(1));
                }
                return Resolution::TooDeep(nn);
            }
            let mut nn: Vec<char> = Vec::new();
            let mut k: usize = 1;
            while k < v.len()
                invariant
                    1 <= k <= v.len(),
                    nn@ == v@.subrange(1, k as int),
                decreases v.len() - k,
            {
                nn.push(v[k]);
                proof {
                    assert(v@.subrange(1, k + 1 as int) =~= v@.subrange(1, k as int).push(
                        v@[k as int],
                    ));
                }
                k = k + 1;
            }
            proof {
                assert(nn@ =~= v@.skip(1));
            }
            needle = nn;
            chasing = true;
            start = j + 1;
            fuel_left = fuel_left - 1;
        } else if v.len() > 0 && v[0] == '*' {
            if fuel_left == 0 {
                return Resolution::TooDeep(key.clone());
            }
            let mut dd: Vec<char> = Vec::new();
            let mut k: usize = 1;
            while k < v.len()
                invariant
                    1 <= k <= v.len(),
                    dd@ == v@.subrange(1, k as int),
                decreases v.len() - k,
            {
                dd.push(v[k]);
                proof {
                    assert(v@.subrange(1, k + 1 as int) =~= v@.subrange(1, k as int).push(
                        v@[k as int],
                    ));
                }
                k = k + 1;
            }
            proof {
                assert(dd@ =~= v@.skip(1));
            }
            needle = key.clone();
            proof {
                assert(needle@ =~= key@);
            }
            default = dd;
            chasing = true;
            start = j + 1;
            fuel_left = fuel_left - 1;
        } else {
            return Resolution::Found(v);
        }
    }
}

/// The raw material for instantiating one operator: the inherited globals,
/// the step's own arguments, and a record of which keys resolved.
pub struct GysArgs {
    pub globals: Vec<(String, String)>,
    pub locals: Vec<(String, String)>,
    pub used: Vec<(String, String)>,
}

/// The key/value pair one step token contributes: the first token without
/// a colon names the operator, a bare `key` maps to the empty value, and
/// only the text between the first two colons of `key:value` is kept.
pub open spec fn token_pair(tok: Seq<char>, first: bool) -> (Seq<char>, Seq<char>) {
    let c = find_char(tok, ':');
    if c == tok.len() {
        if first {
            ("name"@, tok)
        } else {
            (tok, Seq::<char>::empty())
        }
    } else if 0 <= c < tok.len() {
        let rest = tok.skip(c + 1);
        (tok.take(c), rest.take(find_char(rest, ':')))
    } else {
        (tok, Seq::<char>::empty())
    }
}

/// The local argument list of one canonical step.
pub open spec fn local_args_spec(step: Seq<char>) -> Seq<(Seq<char>, Seq<char>)> {
    let toks = tokens_spec(step);
    Seq::new(toks.len(), |i: int| token_pair(toks[i], i == 0))
}

impl GysArgs {
    pub fn new(globals: &[(String, String)], step: &str) -> (r: GysArgs)
        ensures
            r.globals@ == globals@,
            crate::kv::pair_views(r.locals@) == local_args_spec(step@),
            r.used@.len() == 0,
    {
        let g = crate::kv::clone_pairs(globals);
        let locals = GysArgs::step_to_local_args(step);
        GysArgs { globals: g, locals, used: Vec::new() }
    }

    pub fn new_symmetric(globals: &[(String, String)], locals: &[(String, String)]) -> (r: GysArgs)
        ensures
            r.globals@ == globals@,
            r.locals@ == locals@,
            r.used@.len() == 0,
    {
        let g = crate::kv::clone_pairs(globals);
        let l = crate::kv::clone_pairs(locals);
        GysArgs { globals: g, locals: l, used: Vec::new() }
    }

    /// Split one canonical step into its key/value pairs.
    pub fn step_to_local_args(step: &str) -> (r: Vec<(String, String)>)
        ensures
            crate::kv::pair_views(r@) == local_args_spec(step@),
    {
        let chars = str_to_chars(step);
        let toks = tokens_chars(&chars);
        let ghost tv = seq_views(toks@);
        let mut r: Vec<(String, String)> = Vec::new();
        let mut i: usize = 0;
        while i < toks.len()
            invariant
                i <= toks.len(),
                tv == seq_views(toks@),
                r@.len() == i,
                forall|q: int|
                    0 <= q < i ==> (#[trigger] r@[q].0@, r@[q].1@) == token_pair(tv[q], q == 0),
            decreases toks.len() - i,
        {
            let tok = &toks[i];
            proof {
                assert(tv[i as int] == toks@[i as int]@);
            }
            let mut c: usize = 0;
            while c < tok.len() && tok[c] != ':'
                invariant
                    c <= tok.len(),
                    forall|j: int| 0 <= j < c ==> tok@[j] != ':',
                decreases tok.len() - c,
            {
                c = c + 1;
            }
            proof {
                if c < tok.len() {
                    lemma_find_char_unique(tok@, ':', c as int);
                } else {
                    lemma_find_char_unique(tok@, ':', tok@.len() as int);
                }
            }
            if c == tok.len() {
                if i == 0 {
                    r.push((String::from_str("name"), chars_to_string(tok)));
                } else {
                    let empty_val = String::new();
                    r.push((chars_to_string(tok), empty_val));
                }
            } else {
                let mut keyp: Vec<char> = Vec::new();
                let mut j: usize = 0;
                while j < c
                    invariant
                        j <= c <= tok.len(),
                        keyp@ == tok@.take(j as int),
                    decreases c - j,
                {
                    keyp.push(tok[j]);
                    proof {
                        assert(tok@.take(j + 1 as int) =~= tok@.take(j as int).push(
                            tok@[j as int],
                        ));
                    }
                    j = j + 1;
                }
                let ghost rest = tok@.skip(c + 1);
                let mut valp: Vec<char> = Vec::new();
                let mut j2: usize = c + 1;
                while j2 < tok.len() && tok[j2] != ':'
                    invariant
                        c + 1 <= j2 <= tok.len(),
                        rest == tok@.skip(c + 1),
                        valp@ == tok@.subrange(c + 1 as int, j2 as int),
                        forall|q: int| c + 1 <= q < j2 ==> tok@[q] != ':',
                    decreases tok.len() - j2,
                {
                    valp.push(tok[j2]);
                    proof {
                        assert(tok@.subrange(c + 1 as int, j2 + 1 as int) =~= tok@.subrange(
                            c + 1 as int,
                            j2 as int,
                        ).push(tok@[j2 as int]));
                    }
                    j2 = j2 + 1;
                }
                proof {
                    assert forall|q: int| 0 <= q < j2 - (c + 1) implies rest[q] != ':' by {
                        assert(rest[q] == tok@[q + c + 1]);
                    }
                    if j2 < tok.len() {
                        assert(rest[j2 - (c + 1)] == tok@[j2 as int]);
                    }
                    lemma_find_char_unique(rest, ':', j2 - (c + 1) as int);
                    assert(valp@ =~= rest.take(j2 - (c + 1) as int));
                }
                r.push((chars_to_string(&keyp), chars_to_string(&valp)));
            }
            proof {
                assert(crate::kv::pair_views(r@)[i as int] == (r@[i as int].0@, r@[i as int].1@));
            }
            i = i + 1;
        }
        proof {
            assert(crate::kv::pair_views(r@) =~= local_args_spec(step@));
        }
        r
    }

    /// Resolve `key` against globals and locals, chasing `^`-indirections
    /// and honoring `*`-defaults; a resolved concrete value is recorded in
    /// `used`.
    pub fn value(&mut self, key: &str) -> (r: Result<Option<String>, crate::error::Error>)
        ensures
            old(self).globals@ == final(self).globals@,
            old(self).locals@ == final(self).locals@,
            trim_spec(key@).len() == 0 ==> (r matches Err(e) && e matches
                crate::error::Error::Syntax(d) && d@ == "Empty key"@ && final(self).used@ == old(
                self,
            ).used@),
            trim_spec(key@).len() > 0 ==> match gys_lookup(
                old(self).globals@,
                old(self).locals@,
                key@,
            ) {
                LookupResult::Found(v) => r matches Ok(o) && o matches Some(s) && s@ == v
                    && crate::kv::pair_views(final(self).used@) == crate::kv::pair_views(
                    old(self).used@,
                ).push((trim_spec(key@), v)),
                LookupResult::Defaulted(d) => r matches Ok(o) && o matches Some(s) && s@ == d
                    && final(self).used@ == old(self).used@,
                LookupResult::Missing => r matches Ok(o) && o is None && final(self).used@ == old(
                    self,
                ).used@,
                LookupResult::Incomplete => r matches Err(e) && e matches
                    crate::error::Error::Syntax(d) && d@ == "Incomplete definition for '"@
                    + trim_spec(key@) + "'"@ && final(self).used@ == old(self).used@,
                LookupResult::TooDeep(_) => false,
            },
    {
        let kc = str_to_chars(key);
        let kt = trim_chars(&kc);
        if kt.len() == 0 {
            return Err(crate::error::Error::Syntax(String::from_str("Empty key")));
        }
        let mut hay: Vec<(String, String)> = Vec::new();
        let ghost both = self.globals@ + self.locals@;
        let mut i: usize = self.locals.len();
        while i > 0
            invariant
                i <= self.locals@.len(),
                both == self.globals@ + self.locals@,
                hay@.len() == self.locals@.len() - i,
                forall|q: int|
                    0 <= q < hay@.len() ==> #[trigger] hay@[q] == both[both.len() - 1 - q],
            decreases i,
        {
            i = i - 1;
            let e = &self.locals[i];
            hay.push((e.0.clone(), e.1.clone()));
            proof {
                assert(both[both.len() - 1 - (hay@.len() - 1)] == self.locals@[i as int]);
            }
        }
        let mut i2: usize = self.globals.len();
        while i2 > 0
            invariant
                i2 <= self.globals@.len(),
                both == self.globals@ + self.locals@,
                hay@.len() == self.locals@.len() + (self.globals@.len() - i2),
                forall|q: int|
                    0 <= q < hay@.len() ==> #[trigger] hay@[q] == both[both.len() - 1 - q],
            decreases i2,
        {
            i2 = i2 - 1;
            let e = &self.globals[i2];
            hay.push((e.0.clone(), e.1.clone()));
            proof {
                assert(both[both.len() - 1 - (hay@.len() - 1)] == self.globals@[i2 as int]);
            }
        }
        proof {
            assert(crate::kv::pair_views(hay@) =~= gys_haystack(self.globals@, self.locals@));
            assert(kt@ == trim_spec(key@));
            lemma_lookup_fuel_bound(
                crate::kv::pair_views(hay@),
                kt@,
                kt@,
                Seq::empty(),
                false,
                hay@.len() as nat,
                hay@.len() as nat,
            );
        }
        let hay_len = hay.len();
        match exec_lookup(&hay, &kt, hay_len) {
            Resolution::Found(v) => {
                let out = chars_to_string(&v);
                let ks = chars_to_string(&kt);
                let ghost pre = self.used@;
                self.used.push((ks, out.clone()));
                proof {
                    assert(crate::kv::pair_views(self.used@) =~= crate::kv::pair_views(pre).push(
                        (trim_spec(key@), v@),
                    ));
                }
                Ok(Some(out))
            },
            Resolution::Defaulted(v) => Ok(Some(chars_to_string(&v))),
            Resolution::Missing => Ok(None),
            Resolution::Incomplete => {
                let mut m = String::from_str("Incomplete definition for '");
                let kts = chars_to_string(&kt);
                m.append(kts.as_str());
                m.append("'");
                Err(crate::error::Error::Syntax(m))
            },
            Resolution::TooDeep(_) => {
                proof {
                    assert(false);
                }
                Err(crate::error::Error::Unknown)
            },
        }
    }

    /// A flag is true where its value is empty or anything but `false`
    /// (case ignored); an absent flag is false.
    pub fn flag(&mut self, key: &str) -> (r: Result<bool, crate::error::Error>)
        ensures
            old(self).globals@ == final(self).globals@,
            old(self).locals@ == final(self).locals@,
            trim_spec(key@).len() == 0 ==> (r matches Err(e) && e matches
                crate::error::Error::Syntax(d) && d@ == "Empty key"@ && final(self).used@ == old(
                self,
            ).used@),
            trim_spec(key@).len() > 0 ==> match gys_lookup(
                old(self).globals@,
                old(self).locals@,
                key@,
            ) {
                LookupResult::Found(v) => r matches Ok(b) && b == !crate::txt::is_false_word(v)
                    && crate::kv::pair_views(final(self).used@) == crate::kv::pair_views(
                    old(self).used@,
                ).push((trim_spec(key@), v)),
                LookupResult::Defaulted(d) => r matches Ok(b) && b == !crate::txt::is_false_word(d)
                    && final(self).used@ == old(self).used@,
                LookupResult::Missing => r matches Ok(b) && b == false && final(self).used@ == old(
                    self,
                ).used@,
                LookupResult::Incomplete => r matches Err(e) && e matches
                    crate::error::Error::Syntax(d) && d@ == "Incomplete definition for '"@
                    + trim_spec(key@) + "'"@ && final(self).used@ == old(self).used@,
                LookupResult::TooDeep(_) => false,
            },
    {
        match self.value(key) {
            Err(e) => Err(e),
            Ok(Some(v)) => {
                let vc = str_to_chars(v.as_str());
                Ok(!crate::txt::word_false(&vc))
            },
            Ok(None) => Ok(false),
        }
    }

    /// The value for `key`, or `default` where no source supplies one.
    pub fn string(&mut self, key: &str, default: &str) -> (r: Result<
        String,
        crate::error::Error,
    >)
        ensures
            old(self).globals@ == final(self).globals@,
            old(self).locals@ == final(self).locals@,
            trim_spec(key@).len() == 0 ==> (r matches Err(e) && e matches
                crate::error::Error::Syntax(d) && d@ == "Empty key"@ && final(self).used@ == old(
                self,
            ).used@),
            trim_spec(key@).len() > 0 ==> match gys_lookup(
                old(self).globals@,
                old(self).locals@,
                key@,
            ) {
                LookupResult::Found(v) => r matches Ok(s) && s@ == v && crate::kv::pair_views(
                    final(self).used@,
                ) == crate::kv::pair_views(old(self).used@).push((trim_spec(key@), v)),
                LookupResult::Defaulted(d) => r matches Ok(s) && s@ == d && final(self).used@
                    == old(self).used@,
                LookupResult::Missing => r matches Ok(s) && s@ == default@ && final(self).used@
                    == old(self).used@,
                LookupResult::Incomplete => r matches Err(e) && e matches
                    crate::error::Error::Syntax(d) && d@ == "Incomplete definition for '"@
                    + trim_spec(key@) + "'"@ && final(self).used@ == old(self).used@,
                LookupResult::TooDeep(_) => false,
            },
    {
        match self.value(key) {
            Err(e) => Err(e),
            Ok(Some(v)) => Ok(v),
            Ok(None) => Ok(String::from_str(default)),
        }
    }
}

} // verus!
