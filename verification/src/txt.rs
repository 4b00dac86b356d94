//! Verified text primitives used by the definition parser and the
//! parameter resolver: character classification, trimming, splitting,
//! joining, replacement, and decimal parsing, each tied to a spec-level
//! description over `Seq<char>`.

use vstd::prelude::*;
use vstd::string::*;

verus! {

/// ASCII whitespace, as the tokenizer understands it.
pub open spec fn is_space_char(c: char) -> bool {
    c == ' ' || c == '\t' || c == '\n' || c == '\r' || c == '\u{b}' || c == '\u{c}'
}

pub fn is_space(c: char) -> (r: bool)
    ensures
        r == is_space_char(c),
{
    c == ' ' || c == '\t' || c == '\n' || c == '\r' || c == '\u{b}' || c == '\u{c}'
}

/// Relies on `String::push`: appends exactly the given character.
pub assume_specification[ String::push ](s: &mut String, c: char)
    ensures
        final(s)@ == old(s)@.push(c),
;

pub fn str_to_chars(s: &str) -> (r: Vec<char>)
    ensures
        r@ == s@,
{
    let n = s.unicode_len();
    let mut r: Vec<char> = Vec::new();
    let mut i: usize = 0;
    while i < n
        invariant
            i <= n,
            n == s@.len(),
            r@ == s@.take(i as int),
        decreases n - i,
    {
        let c = s.get_char(i);
        r.push(c);
        proof {
            assert(s@.take(i + 1 as int) =~= s@.take(i as int).push(s@[i as int]));
        }
        i = i + 1;
    }
    proof {
        assert(s@.take(n as int) =~= s@);
    }
    r
}

pub fn chars_to_string(v: &Vec<char>) -> (r: String)
    ensures
        r@ == v@,
{
    let mut r = String::new();
    let mut i: usize = 0;
    while i < v.len()
        invariant
            i <= v.len(),
            r@ == v@.take(i as int),
        decreases v.len() - i,
    {
        r.push(v[i]);
        proof {
            assert(v@.take(i + 1 as int) =~= v@.take(i as int).push(v@[i as int]));
        }
        i = i + 1;
    }
    proof {
        assert(v@.take(v@.len() as int) =~= v@);
    }
    r
}

pub fn chars_eq_str(v: &Vec<char>, s: &str) -> (r: bool)
    ensures
        r == (v@ == s@),
{
    let n = s.unicode_len();
    if v.len() != n {
        return false;
    }
    let mut i: usize = 0;
    while i < n
        invariant
            i <= n,
            n == s@.len(),
            v@.len() == s@.len(),
            forall|j: int| 0 <= j < i ==> v@[j] == s@[j],
        decreases n - i,
    {
        if v[i] != s.get_char(i) {
            return false;
        }
        i = i + 1;
    }
    proof {
        assert(v@ =~= s@);
    }
    true
}

pub fn str_eq(a: &str, b: &str) -> (r: bool)
    ensures
        r == (a@ == b@),
{
    let na = a.unicode_len();
    let nb = b.unicode_len();
    if na != nb {
        return false;
    }
    let mut i: usize = 0;
    while i < na
        invariant
            i <= na,
            na == a@.len(),
            a@.len() == b@.len(),
            forall|j: int| 0 <= j < i ==> a@[j] == b@[j],
        decreases na - i,
    {
        if a.get_char(i) != b.get_char(i) {
            return false;
        }
        i = i + 1;
    }
    proof {
        assert(a@ =~= b@);
    }
    true
}

/// Index of the first occurrence of `c` in `s`, or `s.len()` if absent.
pub open spec fn find_char(s: Seq<char>, c: char) -> int
    decreases s.len(),
{
    if s.len() == 0 {
        0
    } else if s[0] == c {
        0
    } else {
        1 + find_char(s.skip(1), c)
    }
}

pub proof fn lemma_find_char(s: Seq<char>, c: char)
    ensures
        0 <= find_char(s, c) <= s.len(),
        find_char(s, c) < s.len() ==> s[find_char(s, c)] == c,
        forall|j: int| 0 <= j < find_char(s, c) ==> s[j] != c,
    decreases s.len(),
{
    if s.len() > 0 && s[0] != c {
        lemma_find_char(s.skip(1), c);
        assert forall|j: int| 0 <= j < find_char(s, c) implies s[j] != c by {
            if j > 0 {
                assert(s.skip(1)[j - 1] == s[j]);
            }
        }
    }
}

/// If `k` is a first occurrence of `c`, then `find_char` returns `k`;
/// if `c` does not occur at all, `find_char` returns `s.len()`.
pub proof fn lemma_find_char_unique(s: Seq<char>, c: char, k: int)
    requires
        0 <= k <= s.len(),
        forall|j: int| 0 <= j < k ==> s[j] != c,
        k < s.len() ==> s[k] == c,
    ensures
        find_char(s, c) == k,
{
    lemma_find_char(s, c);
    let f = find_char(s, c);
    if f < k {
        assert(s[f] == c);
    }
    if k < f {
        assert(s[k] == c);
    }
}

/// The leading whitespace of `s` removed.
pub open spec fn trim_start_spec(s: Seq<char>) -> Seq<char>
    decreases s.len(),
{
    if s.len() > 0 && is_space_char(s[0]) {
        trim_start_spec(s.skip(1))
    } else {
        s
    }
}

/// The trailing whitespace of `s` removed.
pub open spec fn trim_end_spec(s: Seq<char>) -> Seq<char>
    decreases s.len(),
{
    if s.len() > 0 && is_space_char(s.last()) {
        trim_end_spec(s.drop_last())
    } else {
        s
    }
}

/// Whitespace removed from both ends.
pub open spec fn trim_spec(s: Seq<char>) -> Seq<char> {
    trim_end_spec(trim_start_spec(s))
}

pub proof fn lemma_trim_start_at(s: Seq<char>, k: int)
    requires
        0 <= k <= s.len(),
        forall|j: int| 0 <= j < k ==> is_space_char(s[j]),
        k < s.len() ==> !is_space_char(s[k]),
    ensures
        trim_start_spec(s) == s.skip(k),
    decreases k,
{
    if k == 0 {
        if s.len() > 0 && is_space_char(s[0]) {
            assert(false);
        }
        assert(s.skip(0) =~= s);
    } else {
        assert(is_space_char(s[0]));
        let t = s.skip(1);
        assert forall|j: int| 0 <= j < k - 1 implies is_space_char(t[j]) by {
            assert(t[j] == s[j + 1]);
        }
        if k - 1 < t.len() {
            assert(t[k - 1] == s[k]);
        }
        lemma_trim_start_at(t, k - 1);
        assert(t.skip(k - 1) =~= s.skip(k));
    }
}

pub proof fn lemma_trim_end_at(s: Seq<char>, e: int)
    requires
        0 <= e <= s.len(),
        forall|j: int| e <= j < s.len() ==> is_space_char(s[j]),
        e > 0 ==> !is_space_char(s[e - 1]),
    ensures
        trim_end_spec(s) == s.take(e),
    decreases s.len() - e,
{
    if e == s.len() {
        if s.len() > 0 && is_space_char(s.last()) {
            assert(false);
        }
        assert(s.take(e) =~= s);
    } else {
        assert(is_space_char(s.last()));
        let t = s.drop_last();
        lemma_trim_end_at(t, e);
        assert(t.take(e) =~= s.take(e));
    }
}

/// Trim whitespace from a character vector.
pub fn trim_chars(v: &Vec<char>) -> (r: Vec<char>)
    ensures
        r@ == trim_spec(v@),
{
    let mut lo: usize = 0;
    while lo < v.len() && is_space(v[lo])
        invariant
            lo <= v.len(),
            forall|j: int| 0 <= j < lo ==> is_space_char(v@[j]),
        decreases v.len() - lo,
    {
        lo = lo + 1;
    }
    proof {
        lemma_trim_start_at(v@, lo as int);
    }
    let ghost mid: Seq<char> = v@.skip(lo as int);
    let mut hi: usize = v.len();
    while hi > lo && is_space(v[hi - 1])
        invariant
            lo <= hi <= v.len(),
            forall|j: int| hi <= j < v.len() ==> is_space_char(v@[j]),
        decreases hi,
    {
        hi = hi - 1;
    }
    proof {
        assert forall|j: int| hi - lo <= j < mid.len() implies is_space_char(mid[j]) by {
            assert(mid[j] == v@[j + lo]);
        }
        if hi > lo {
            assert(mid[hi - lo - 1] == v@[hi - 1]);
        }
        lemma_trim_end_at(mid, hi - lo as int);
    }
    let mut r: Vec<char> = Vec::new();
    let mut i: usize = lo;
    while i < hi
        invariant
            lo <= i <= hi <= v.len(),
            r@ == v@.subrange(lo as int, i as int),
        decreases hi - i,
    {
        r.push(v[i]);
        proof {
            assert(v@.subrange(lo as int, i + 1 as int) =~= v@.subrange(lo as int, i as int).push(
                v@[i as int],
            ));
        }
        i = i + 1;
    }
    proof {
        assert(mid.take(hi - lo as int) =~= v@.subrange(lo as int, hi as int));
    }
    r
}

/// Trim whitespace from the end only.
pub fn trim_end_chars(v: &Vec<char>) -> (r: Vec<char>)
    ensures
        r@ == trim_end_spec(v@),
{
    let mut hi: usize = v.len();
    while hi > 0 && is_space(v[hi - 1])
        invariant
            hi <= v.len(),
            forall|j: int| hi <= j < v.len() ==> is_space_char(v@[j]),
        decreases hi,
    {
        hi = hi - 1;
    }
    proof {
        lemma_trim_end_at(v@, hi as int);
    }
    let mut r: Vec<char> = Vec::new();
    let mut i: usize = 0;
    while i < hi
        invariant
            i <= hi <= v.len(),
            r@ == v@.subrange(0, i as int),
        decreases hi - i,
    {
        r.push(v[i]);
        proof {
            assert(v@.subrange(0, i + 1 as int) =~= v@.subrange(0, i as int).push(v@[i as int]));
        }
        i = i + 1;
    }
    r
}

/// The leading run of `m` characters removed.
pub open spec fn trim_match_start_spec(s: Seq<char>, m: char) -> Seq<char>
    decreases s.len(),
{
    if s.len() > 0 && s[0] == m {
        trim_match_start_spec(s.skip(1), m)
    } else {
        s
    }
}

/// The trailing run of `m` characters removed.
pub open spec fn trim_match_end_spec(s: Seq<char>, m: char) -> Seq<char>
    decreases s.len(),
{
    if s.len() > 0 && s.last() == m {
        trim_match_end_spec(s.drop_last(), m)
    } else {
        s
    }
}

/// Runs of `m` removed from both ends.
pub open spec fn trim_match_spec(s: Seq<char>, m: char) -> Seq<char> {
    trim_match_end_spec(trim_match_start_spec(s, m), m)
}

pub proof fn lemma_trim_match_start_at(s: Seq<char>, m: char, k: int)
    requires
        0 <= k <= s.len(),
        forall|j: int| 0 <= j < k ==> s[j] == m,
        k < s.len() ==> s[k] != m,
    ensures
        trim_match_start_spec(s, m) == s.skip(k),
    decreases k,
{
    if k == 0 {
        assert(s.skip(0) =~= s);
    } else {
        let t = s.skip(1);
        assert forall|j: int| 0 <= j < k - 1 implies t[j] == m by {
            assert(t[j] == s[j + 1]);
        }
        if k - 1 < t.len() {
            assert(t[k - 1] == s[k]);
        }
        lemma_trim_match_start_at(t, m, k - 1);
        assert(t.skip(k - 1) =~= s.skip(k));
    }
}

pub proof fn lemma_trim_match_end_at(s: Seq<char>, m: char, e: int)
    requires
        0 <= e <= s.len(),
        forall|j: int| e <= j < s.len() ==> s[j] == m,
        e > 0 ==> s[e - 1] != m,
    ensures
        trim_match_end_spec(s, m) == s.take(e),
    decreases s.len() - e,
{
    if e == s.len() {
        assert(s.take(e) =~= s);
    } else {
        let t = s.drop_last();
        lemma_trim_match_end_at(t, m, e);
        assert(t.take(e) =~= s.take(e));
    }
}

/// Trim a run of one repeated character from both ends.
pub fn trim_match_chars(v: &Vec<char>, m: char) -> (r: Vec<char>)
    ensures
        r@ == trim_match_spec(v@, m),
{
    let mut lo: usize = 0;
    while lo < v.len() && v[lo] == m
        invariant
            lo <= v.len(),
            forall|j: int| 0 <= j < lo ==> v@[j] == m,
        decreases v.len() - lo,
    {
        lo = lo + 1;
    }
    proof {
        lemma_trim_match_start_at(v@, m, lo as int);
    }
    let ghost mid: Seq<char> = v@.skip(lo as int);
    let mut hi: usize = v.len();
    while hi > lo && v[hi - 1] == m
        invariant
            lo <= hi <= v.len(),
            forall|j: int| hi <= j < v.len() ==> v@[j] == m,
        decreases hi,
    {
        hi = hi - 1;
    }
    proof {
        assert forall|j: int| hi - lo <= j < mid.len() implies mid[j] == m by {
            assert(mid[j] == v@[j + lo]);
        }
        if hi > lo {
            assert(mid[hi - lo - 1] == v@[hi - 1]);
        }
        lemma_trim_match_end_at(mid, m, hi - lo as int);
    }
    let mut r: Vec<char> = Vec::new();
    let mut i: usize = lo;
    while i < hi
        invariant
            lo <= i <= hi <= v.len(),
            r@ == v@.subrange(lo as int, i as int),
        decreases hi - i,
    {
        r.push(v[i]);
        proof {
            assert(v@.subrange(lo as int, i + 1 as int) =~= v@.subrange(lo as int, i as int).push(
                v@[i as int],
            ));
        }
        i = i + 1;
    }
    proof {
        assert(mid.take(hi - lo as int) =~= v@.subrange(lo as int, hi as int));
    }
    r
}

/// The element-wise views of a sequence of character vectors.
pub open spec fn seq_views(r: Seq<Vec<char>>) -> Seq<Seq<char>> {
    Seq::new(r.len(), |i: int| r[i]@)
}

/// The element-wise views of a sequence of strings.
pub open spec fn str_views(r: Seq<String>) -> Seq<Seq<char>> {
    Seq::new(r.len(), |i: int| r[i]@)
}

pub fn push_all(out: &mut Vec<char>, piece: &Vec<char>)
    ensures
        final(out)@ == old(out)@ + piece@,
{
    let mut i: usize = 0;
    while i < piece.len()
        invariant
            i <= piece.len(),
            out@ == old(out)@ + piece@.take(i as int),
        decreases piece.len() - i,
    {
        out.push(piece[i]);
        proof {
            assert(old(out)@ + piece@.take(i + 1 as int) =~= (old(out)@ + piece@.take(
                i as int,
            )).push(piece@[i as int]));
        }
        i = i + 1;
    }
    proof {
        assert(old(out)@ + piece@.take(piece@.len() as int) =~= old(out)@ + piece@);
    }
}

pub fn push_str_chars(out: &mut Vec<char>, piece: &str)
    ensures
        final(out)@ == old(out)@ + piece@,
{
    let p = str_to_chars(piece);
    push_all(out, &p);
}

/// Split at every occurrence of `sep`; `n` separators give `n + 1` pieces.
pub open spec fn split_char_spec(s: Seq<char>, sep: char) -> Seq<Seq<char>>
    decreases s.len(),
{
    let i = find_char(s, sep);
    if 0 <= i < s.len() {
        seq![s.take(i)] + split_char_spec(s.skip(i + 1), sep)
    } else {
        seq![s]
    }
}

pub fn split_chars(v: &Vec<char>, sep: char) -> (r: Vec<Vec<char>>)
    ensures
        seq_views(r@) == split_char_spec(v@, sep),
{
    let mut r: Vec<Vec<char>> = Vec::new();
    let mut cur: Vec<char> = Vec::new();
    let mut start: usize = 0;
    let mut i: usize = 0;
    proof {
        assert(v@.skip(0) =~= v@);
        assert(cur@ =~= v@.subrange(0, 0));
        assert(seq_views(r@) + split_char_spec(v@, sep) =~= split_char_spec(v@, sep));
    }
    while i < v.len()
        invariant
            start <= i <= v.len(),
            cur@ == v@.subrange(start as int, i as int),
            split_char_spec(v@, sep) == seq_views(r@) + split_char_spec(v@.skip(start as int), sep),
            forall|j: int| start <= j < i ==> v@[j] != sep,
        decreases v.len() - i,
    {
        if v[i] == sep {
            proof {
                let suf = v@.skip(start as int);
                assert forall|j: int| 0 <= j < i - start implies suf[j] != sep by {
                    assert(suf[j] == v@[j + start]);
                }
                assert(suf[i - start] == v@[i as int]);
                lemma_find_char_unique(suf, sep, i - start);
                assert(suf.take(i - start) =~= v@.subrange(start as int, i as int));
                assert(suf.skip(i - start + 1) =~= v@.skip(i + 1 as int));
                assert(seq_views(r@.push(cur)) =~= seq_views(r@).push(cur@));
                assert(seq_views(r@) + (seq![cur@] + split_char_spec(v@.skip(i + 1 as int), sep))
                    =~= seq_views(r@.push(cur)) + split_char_spec(v@.skip(i + 1 as int), sep));
            }
            r.push(cur);
            cur = Vec::new();
            start = i + 1;
            proof {
                assert(cur@ =~= v@.subrange(start as int, start as int));
            }
        } else {
            cur.push(v[i]);
            proof {
                assert(v@.subrange(start as int, i + 1 as int) =~= v@.subrange(
                    start as int,
                    i as int,
                ).push(v@[i as int]));
            }
        }
        i = i + 1;
    }
    proof {
        let suf = v@.skip(start as int);
        assert forall|j: int| 0 <= j < suf.len() implies suf[j] != sep by {
            assert(suf[j] == v@[j + start]);
        }
        lemma_find_char(suf, sep);
        assert(cur@ =~= suf);
        assert(seq_views(r@.push(cur)) =~= seq_views(r@).push(cur@));
        assert(seq_views(r@) + seq![suf] =~= seq_views(r@.push(cur)));
    }
    r.push(cur);
    r
}

/// Whitespace-separated tokens of `s`, in order, each non-empty.
pub open spec fn tokens_spec(s: Seq<char>) -> Seq<Seq<char>>
    decreases s.len(),
{
    if s.len() == 0 {
        Seq::empty()
    } else if is_space_char(s[0]) {
        tokens_spec(s.skip(1))
    } else {
        let i = find_space(s);
        if 1 <= i <= s.len() {
            seq![s.take(i)] + tokens_spec(s.skip(i))
        } else {
            seq![s]
        }
    }
}

/// Index of the first whitespace character, or `s.len()` if none.
pub open spec fn find_space(s: Seq<char>) -> int
    decreases s.len(),
{
    if s.len() == 0 {
        0
    } else if is_space_char(s[0]) {
        0
    } else {
        1 + find_space(s.skip(1))
    }
}

pub proof fn lemma_find_space(s: Seq<char>)
    ensures
        0 <= find_space(s) <= s.len(),
        find_space(s) < s.len() ==> is_space_char(s[find_space(s)]),
        forall|j: int| 0 <= j < find_space(s) ==> !is_space_char(s[j]),
    decreases s.len(),
{
    if s.len() > 0 && !is_space_char(s[0]) {
        lemma_find_space(s.skip(1));
        assert forall|j: int| 0 <= j < find_space(s) implies !is_space_char(s[j]) by {
            if j > 0 {
                assert(s.skip(1)[j - 1] == s[j]);
            }
        }
    }
}

pub proof fn lemma_find_space_unique(s: Seq<char>, k: int)
    requires
        0 <= k <= s.len(),
        forall|j: int| 0 <= j < k ==> !is_space_char(s[j]),
        k < s.len() ==> is_space_char(s[k]),
    ensures
        find_space(s) == k,
{
    lemma_find_space(s);
    let f = find_space(s);
    if f < k {
        assert(is_space_char(s[f]));
    }
    if k < f {
        assert(is_space_char(s[k]));
    }
}

pub fn tokens_chars(v: &Vec<char>) -> (r: Vec<Vec<char>>)
    ensures
        seq_views(r@) == tokens_spec(v@),
{
    let mut r: Vec<Vec<char>> = Vec::new();
    let mut i: usize = 0;
    proof {
        assert(v@.skip(0) =~= v@);
        assert(seq_views(r@) + tokens_spec(v@) =~= tokens_spec(v@));
    }
    while i < v.len()
        invariant
            i <= v.len(),
            tokens_spec(v@) == seq_views(r@) + tokens_spec(v@.skip(i as int)),
        decreases v.len() - i,
    {
        if is_space(v[i]) {
            proof {
                assert(v@.skip(i as int)[0] == v@[i as int]);
                assert(v@.skip(i as int).skip(1) =~= v@.skip(i + 1 as int));
            }
            i = i + 1;
        } else {
            let tok_start = i;
            let mut cur: Vec<char> = Vec::new();
            while i < v.len() && !is_space(v[i])
                invariant
                    tok_start <= i <= v.len(),
                    cur@ == v@.subrange(tok_start as int, i as int),
                    forall|j: int| tok_start <= j < i ==> !is_space_char(v@[j]),
                    tok_start < v@.len() && !is_space_char(v@[tok_start as int]),
                decreases v.len() - i,
            {
                cur.push(v[i]);
                proof {
                    assert(v@.subrange(tok_start as int, i + 1 as int) =~= v@.subrange(
                        tok_start as int,
                        i as int,
                    ).push(v@[i as int]));
                }
                i = i + 1;
            }
            proof {
                let suf = v@.skip(tok_start as int);
                assert forall|j: int| 0 <= j < i - tok_start implies !is_space_char(suf[j]) by {
                    assert(suf[j] == v@[j + tok_start]);
                }
                if i < v.len() {
                    assert(suf[i - tok_start] == v@[i as int]);
                }
                lemma_find_space_unique(suf, i - tok_start);
                assert(suf[0] == v@[tok_start as int]);
                assert(suf.take(i - tok_start) =~= v@.subrange(tok_start as int, i as int));
                assert(suf.skip(i - tok_start) =~= v@.skip(i as int));
                assert(tokens_spec(suf) == seq![cur@] + tokens_spec(v@.skip(i as int)));
                assert(seq_views(r@.push(cur)) =~= seq_views(r@).push(cur@));
                assert(seq_views(r@) + (seq![cur@] + tokens_spec(v@.skip(i as int))) =~= seq_views(
                    r@.push(cur),
                ) + tokens_spec(v@.skip(i as int)));
            }
            r.push(cur);
        }
    }
    proof {
        assert(v@.skip(v@.len() as int) =~= Seq::<char>::empty());
        assert(seq_views(r@) + Seq::<Seq<char>>::empty() =~= seq_views(r@));
    }
    r
}

/// The pieces of `list` concatenated with `sep` between consecutive pieces.
pub open spec fn join_with(list: Seq<Seq<char>>, sep: Seq<char>) -> Seq<char>
    decreases list.len(),
{
    if list.len() == 0 {
        Seq::empty()
    } else if list.len() == 1 {
        list[0]
    } else {
        list[0] + sep + join_with(list.skip(1), sep)
    }
}

pub proof fn lemma_join_push(list: Seq<Seq<char>>, x: Seq<char>, sep: Seq<char>)
    ensures
        join_with(list.push(x), sep) == if list.len() == 0 {
            x
        } else {
            join_with(list, sep) + sep + x
        },
    decreases list.len(),
{
    let p = list.push(x);
    if list.len() == 0 {
        assert(p.len() == 1);
        assert(p[0] == x);
    } else if list.len() == 1 {
        assert(p.skip(1) =~= seq![x]);
        assert(join_with(p.skip(1), sep) == x);
        assert(p[0] == list[0]);
        assert(join_with(list, sep) == list[0]);
    } else {
        lemma_join_push(list.skip(1), x, sep);
        assert(p.skip(1) =~= list.skip(1).push(x));
        assert(p[0] == list[0]);
        assert(list[0] + sep + (join_with(list.skip(1), sep) + sep + x) =~= (list[0] + sep
            + join_with(list.skip(1), sep)) + sep + x);
    }
}

pub fn join_chars(parts: &Vec<Vec<char>>, sep: &Vec<char>) -> (r: Vec<char>)
    ensures
        r@ == join_with(seq_views(parts@), sep@),
{
    let mut r: Vec<char> = Vec::new();
    let mut i: usize = 0;
    while i < parts.len()
        invariant
            i <= parts.len(),
            r@ == join_with(seq_views(parts@).take(i as int), sep@),
        decreases parts.len() - i,
    {
        if i > 0 {
            push_all(&mut r, sep);
        }
        push_all(&mut r, &parts[i]);
        proof {
            let vs = seq_views(parts@);
            assert(vs.take(i + 1 as int) =~= vs.take(i as int).push(vs[i as int]));
            lemma_join_push(vs.take(i as int), vs[i as int], sep@);
        }
        i = i + 1;
    }
    proof {
        assert(seq_views(parts@).take(parts@.len() as int) =~= seq_views(parts@));
    }
    r
}

/// Every occurrence of the character `c` replaced by `rep`.
pub open spec fn replace_char_spec(s: Seq<char>, c: char, rep: Seq<char>) -> Seq<char>
    decreases s.len(),
{
    if s.len() == 0 {
        s
    } else if s[0] == c {
        rep + replace_char_spec(s.skip(1), c, rep)
    } else {
        seq![s[0]] + replace_char_spec(s.skip(1), c, rep)
    }
}

pub fn replace_char(v: &Vec<char>, c: char, rep: &Vec<char>) -> (r: Vec<char>)
    ensures
        r@ == replace_char_spec(v@, c, rep@),
{
    let mut r: Vec<char> = Vec::new();
    let mut i: usize = 0;
    proof {
        assert(v@.skip(0) =~= v@);
        assert(r@ + replace_char_spec(v@, c, rep@) =~= replace_char_spec(v@, c, rep@));
    }
    while i < v.len()
        invariant
            i <= v.len(),
            replace_char_spec(v@, c, rep@) == r@ + replace_char_spec(v@.skip(i as int), c, rep@),
        decreases v.len() - i,
    {
        let ghost suf = v@.skip(i as int);
        proof {
            assert(suf[0] == v@[i as int]);
            assert(suf.skip(1) =~= v@.skip(i + 1 as int));
        }
        if v[i] == c {
            let ghost r0 = r@;
            push_all(&mut r, rep);
            proof {
                assert(r@ + replace_char_spec(v@.skip(i + 1 as int), c, rep@) =~= r0 + (rep@
                    + replace_char_spec(v@.skip(i + 1 as int), c, rep@)));
            }
        } else {
            r.push(v[i]);
            proof {
                assert(r@ + replace_char_spec(v@.skip(i + 1 as int), c, rep@) =~= r@.drop_last() + (
                seq![v@[i as int]] + replace_char_spec(v@.skip(i + 1 as int), c, rep@)));
            }
        }
        i = i + 1;
    }
    proof {
        assert(v@.skip(v@.len() as int) =~= Seq::<char>::empty());
    }
    r
}

/// Every occurrence of the two-character pattern `[a, b]` replaced by the
/// single character `rep`, scanning left to right without overlap.
pub open spec fn replace_pair_spec(s: Seq<char>, a: char, b: char, rep: char) -> Seq<char>
    decreases s.len(),
{
    if s.len() >= 2 && s[0] == a && s[1] == b {
        seq![rep] + replace_pair_spec(s.skip(2), a, b, rep)
    } else if s.len() > 0 {
        seq![s[0]] + replace_pair_spec(s.skip(1), a, b, rep)
    } else {
        s
    }
}

pub fn replace_pair(v: &Vec<char>, a: char, b: char, rep: char) -> (r: Vec<char>)
    ensures
        r@ == replace_pair_spec(v@, a, b, rep),
{
    let mut r: Vec<char> = Vec::new();
    let mut i: usize = 0;
    proof {
        assert(v@.skip(0) =~= v@);
        assert(r@ + replace_pair_spec(v@, a, b, rep) =~= replace_pair_spec(v@, a, b, rep));
    }
    while i < v.len()
        invariant
            i <= v.len(),
            replace_pair_spec(v@, a, b, rep) == r@ + replace_pair_spec(v@.skip(i as int), a, b, rep),
        decreases v.len() - i,
    {
        let ghost suf = v@.skip(i as int);
        proof {
            assert(suf[0] == v@[i as int]);
            if suf.len() >= 2 {
                assert(suf[1] == v@[i + 1]);
            }
            assert(suf.skip(1) =~= v@.skip(i + 1 as int));
            if suf.len() >= 2 {
                assert(suf.skip(2) =~= v@.skip(i + 2 as int));
            }
        }
        if i + 1 < v.len() && v[i] == a && v[i + 1] == b {
            r.push(rep);
            proof {
                assert(r@ + replace_pair_spec(v@.skip(i + 2 as int), a, b, rep) =~= r@.drop_last()
                    + (seq![rep] + replace_pair_spec(v@.skip(i + 2 as int), a, b, rep)));
            }
            i = i + 2;
        } else {
            r.push(v[i]);
            proof {
                assert(r@ + replace_pair_spec(v@.skip(i + 1 as int), a, b, rep) =~= r@.drop_last()
                    + (seq![v@[i as int]] + replace_pair_spec(v@.skip(i + 1 as int), a, b, rep)));
            }
            i = i + 1;
        }
    }
    proof {
        assert(v@.skip(v@.len() as int) =~= Seq::<char>::empty());
    }
    r
}

/// Whether `s` contains a pipe flanked by spaces.
pub open spec fn has_spaced_pipe(s: Seq<char>) -> bool {
    exists|i: int|
        0 <= i && i + 3 <= s.len() && #[trigger] s[i] == ' ' && s[i + 1] == '|' && s[i + 2] == ' '
}

pub fn contains_spaced_pipe(v: &Vec<char>) -> (r: bool)
    ensures
        r == has_spaced_pipe(v@),
{
    if v.len() < 3 {
        return false;
    }
    let mut i: usize = 0;
    while i < v.len() - 2
        invariant
            3 <= v@.len(),
            i <= v@.len(),
            forall|j: int|
                0 <= j < i ==> !(#[trigger] v@[j] == ' ' && v@[j + 1] == '|' && v@[j + 2] == ' '),
        decreases v.len() - i,
    {
        if v[i] == ' ' && v[i + 1] == '|' && v[i + 2] == ' ' {
            return true;
        }
        i = i + 1;
    }
    proof {
        assert forall|j: int| 0 <= j && j + 3 <= v@.len() implies !(#[trigger] v@[j] == ' ' && v@[j
            + 1] == '|' && v@[j + 2] == ' ') by {
            assert(j < i);
        }
    }
    false
}

pub open spec fn is_digit_char(c: char) -> bool {
    '0' <= c && c <= '9'
}

pub open spec fn digit_val(c: char) -> int {
    c as int - '0' as int
}

pub fn is_digit(c: char) -> (r: bool)
    ensures
        r == is_digit_char(c),
{
    c >= '0' && c <= '9'
}

pub fn digit_of(c: char) -> (d: usize)
    requires
        is_digit_char(c),
    ensures
        d as int == digit_val(c),
        d <= 9,
{
    if c == '0' {
        0
    } else if c == '1' {
        1
    } else if c == '2' {
        2
    } else if c == '3' {
        3
    } else if c == '4' {
        4
    } else if c == '5' {
        5
    } else if c == '6' {
        6
    } else if c == '7' {
        7
    } else if c == '8' {
        8
    } else {
        9
    }
}

pub open spec fn all_digits(s: Seq<char>) -> bool {
    forall|i: int| 0 <= i < s.len() ==> is_digit_char(#[trigger] s[i])
}

/// The value of a digit string read in base ten.
pub open spec fn dec_value(s: Seq<char>) -> int
    decreases s.len(),
{
    if s.len() == 0 {
        0
    } else {
        10 * dec_value(s.drop_last()) + digit_val(s.last())
    }
}

pub proof fn lemma_dec_value_nonneg(s: Seq<char>)
    requires
        all_digits(s),
    ensures
        dec_value(s) >= 0,
    decreases s.len(),
{
    if s.len() > 0 {
        lemma_dec_value_nonneg(s.drop_last());
    }
}

pub proof fn lemma_dec_value_step(s: Seq<char>, i: int)
    requires
        0 <= i < s.len(),
    ensures
        dec_value(s.take(i + 1)) == 10 * dec_value(s.take(i)) + digit_val(s[i]),
{
    assert(s.take(i + 1).drop_last() =~= s.take(i));
    assert(s.take(i + 1).last() == s[i]);
}

/// The numeric value of an unsigned decimal token (an optional `+` followed
/// by digits), or `None` where the token is not of that shape.
pub open spec fn nat_token_value(s: Seq<char>) -> Option<int> {
    let b = if s.len() > 0 && s[0] == '+' {
        s.skip(1)
    } else {
        s
    };
    if b.len() > 0 && all_digits(b) {
        Some(dec_value(b))
    } else {
        None
    }
}

/// Parse an unsigned decimal token as `usize`, as `str::parse::<usize>` reads
/// it: `None` on a malformed token and on overflow.
pub fn parse_usize(v: &Vec<char>) -> (r: Option<usize>)
    ensures
        match r {
            Some(u) => nat_token_value(v@) == Some(u as int),
            None => nat_token_value(v@) is None || nat_token_value(v@).unwrap()
                > usize::MAX as int,
        },
{
    let lo: usize = if v.len() > 0 && v[0] == '+' {
        1
    } else {
        0
    };
    let ghost b = if v@.len() > 0 && v@[0] == '+' {
        v@.skip(1)
    } else {
        v@
    };
    proof {
        if lo == 1 {
            assert(b =~= v@.skip(1));
        }
    }
    if v.len() == lo {
        return None;
    }
    let mut acc: usize = 0;
    let mut over: bool = false;
    let mut i: usize = lo;
    proof {
        assert(b.take(0) =~= Seq::<char>::empty());
    }
    while i < v.len()
        invariant
            lo <= i <= v.len(),
            lo <= 1,
            b == (if v@.len() > 0 && v@[0] == '+' {
                v@.skip(1)
            } else {
                v@
            }),
            (lo == 1) == (v@.len() > 0 && v@[0] == '+'),
            b.len() == v.len() - lo,
            forall|j: int| 0 <= j < b.len() ==> b[j] == v@[j + lo],
            all_digits(b.take(i - lo)),
            !over ==> acc as int == dec_value(b.take(i - lo)),
            over ==> dec_value(b.take(i - lo)) > usize::MAX as int,
        decreases v.len() - i,
    {
        let c = v[i];
        if !is_digit(c) {
            proof {
                assert(b[i - lo] == v@[i as int]);
                assert(!is_digit_char(b[i - lo]));
                assert(!all_digits(b));
            }
            return None;
        }
        let d: usize = digit_of(c);
        proof {
            assert(b[i - lo] == v@[i as int]);
            lemma_dec_value_step(b, i - lo);
            assert(b.take(i + 1 - lo).take(i - lo) =~= b.take(i - lo));
            assert forall|j: int| 0 <= j < i + 1 - lo implies is_digit_char(
                #[trigger] b.take(i + 1 - lo)[j],
            ) by {
                assert(b.take(i + 1 - lo)[j] == b[j]);
            }
            lemma_dec_value_nonneg(b.take(i - lo));
        }
        if over {
        } else if acc > usize::MAX / 10 {
            over = true;
        } else {
            let acc10: usize = acc * 10;
            if d > usize::MAX - acc10 {
                over = true;
            } else {
                acc = acc10 + d;
            }
        }
        i = i + 1;
    }
    proof {
        assert(b.take(b.len() as int) =~= b);
    }
    if over {
        None
    } else {
        Some(acc)
    }
}

/// The numeric value of a signed decimal token, or `None` where the token is
/// not an optional sign followed by one or more digits.
pub open spec fn int_token_value(s: Seq<char>) -> Option<int> {
    if s.len() > 0 && (s[0] == '+' || s[0] == '-') {
        let b = s.skip(1);
        if b.len() > 0 && all_digits(b) {
            Some(
                if s[0] == '-' {
                    -dec_value(b)
                } else {
                    dec_value(b)
                },
            )
        } else {
            None
        }
    } else {
        if s.len() > 0 && all_digits(s) {
            Some(dec_value(s))
        } else {
            None
        }
    }
}

/// Parse a signed decimal token as `i64`, as `str::parse::<i64>` reads it:
/// `None` on a malformed token and outside the `i64` range.
pub fn parse_i64(v: &Vec<char>) -> (r: Option<i64>)
    ensures
        match r {
            Some(x) => int_token_value(v@) == Some(x as int),
            None => int_token_value(v@) is None || int_token_value(v@).unwrap()
                > i64::MAX as int || int_token_value(v@).unwrap() < i64::MIN as int,
        },
{
    let neg: bool = v.len() > 0 && v[0] == '-';
    let lo: usize = if v.len() > 0 && (v[0] == '+' || v[0] == '-') {
        1
    } else {
        0
    };
    let ghost b = if v@.len() > 0 && (v@[0] == '+' || v@[0] == '-') {
        v@.skip(1)
    } else {
        v@
    };
    proof {
        if lo == 1 {
            assert(b =~= v@.skip(1));
        }
    }
    if v.len() == lo {
        return None;
    }
    let mut acc: u64 = 0;
    let mut over: bool = false;
    let mut i: usize = lo;
    proof {
        assert(b.take(0) =~= Seq::<char>::empty());
    }
    while i < v.len()
        invariant
            lo <= i <= v.len(),
            lo <= 1,
            b == (if v@.len() > 0 && (v@[0] == '+' || v@[0] == '-') {
                v@.skip(1)
            } else {
                v@
            }),
            (lo == 1) == (v@.len() > 0 && (v@[0] == '+' || v@[0] == '-')),
            neg == (v@.len() > 0 && v@[0] == '-'),
            b.len() == v.len() - lo,
            forall|j: int| 0 <= j < b.len() ==> b[j] == v@[j + lo],
            all_digits(b.take(i - lo)),
            !over ==> acc as int == dec_value(b.take(i - lo)),
            over ==> dec_value(b.take(i - lo)) > u64::MAX as int,
        decreases v.len() - i,
    {
        let c = v[i];
        if !is_digit(c) {
            proof {
                assert(b[i - lo] == v@[i as int]);
                assert(!is_digit_char(b[i - lo]));
                assert(!all_digits(b));
            }
            return None;
        }
        let d: u64 = digit_of(c) as u64;
        proof {
            assert(b[i - lo] == v@[i as int]);
            lemma_dec_value_step(b, i - lo);
            assert(b.take(i + 1 - lo).take(i - lo) =~= b.take(i - lo));
            assert forall|j: int| 0 <= j < i + 1 - lo implies is_digit_char(
                #[trigger] b.take(i + 1 - lo)[j],
            ) by {
                assert(b.take(i + 1 - lo)[j] == b[j]);
            }
            lemma_dec_value_nonneg(b.take(i - lo));
        }
        if over {
        } else if acc > u64::MAX / 10 {
            over = true;
        } else {
            let acc10: u64 = acc * 10;
            if d > u64::MAX - acc10 {
                over = true;
            } else {
                acc = acc10 + d;
            }
        }
        i = i + 1;
    }
    proof {
        assert(b.take(b.len() as int) =~= b);
    }
    if over {
        return None;
    }
    if neg {
        if acc > 9223372036854775808u64 {
            None
        } else if acc == 9223372036854775808u64 {
            Some(i64::MIN)
        } else {
            Some(-(acc as i64))
        }
    } else {
        if acc > 9223372036854775807u64 {
            None
        } else {
            Some(acc as i64)
        }
    }
}

/// Ten to the `k`.
pub open spec fn pow10(k: nat) -> int
    decreases k,
{
    if k == 0 {
        1
    } else {
        10 * pow10((k - 1) as nat)
    }
}

pub proof fn lemma_pow10_pos(k: nat)
    ensures
        pow10(k) >= 1,
    decreases k,
{
    if k > 0 {
        lemma_pow10_pos((k - 1) as nat);
    }
}

pub proof fn lemma_pow10_mono(a: nat, b: nat)
    requires
        a <= b,
    ensures
        pow10(a) <= pow10(b),
    decreases b,
{
    if a < b {
        lemma_pow10_mono(a, (b - 1) as nat);
        lemma_pow10_pos((b - 1) as nat);
    }
}

/// The twentieth power of ten, written out.
pub proof fn lemma_pow10_twenty()
    ensures
        pow10(20) == 100000000000000000000int,
{
    assert(pow10(0) == 1);
    assert(pow10(1) == 10);
    assert(pow10(2) == 100);
    assert(pow10(3) == 1000);
    assert(pow10(4) == 10000);
    assert(pow10(5) == 100000);
    assert(pow10(6) == 1000000);
    assert(pow10(7) == 10000000);
    assert(pow10(8) == 100000000);
    assert(pow10(9) == 1000000000);
    assert(pow10(10) == 10000000000);
    assert(pow10(11) == 100000000000);
    assert(pow10(12) == 1000000000000);
    assert(pow10(13) == 10000000000000);
    assert(pow10(14) == 100000000000000);
    assert(pow10(15) == 1000000000000000);
    assert(pow10(16) == 10000000000000000);
    assert(pow10(17) == 100000000000000000);
    assert(pow10(18) == 1000000000000000000);
    assert(pow10(19) == 10000000000000000000);
    assert(pow10(20) == 100000000000000000000);
}

/// A digit string's value is below ten to its length.
pub proof fn lemma_dec_value_upper(s: Seq<char>)
    requires
        all_digits(s),
    ensures
        dec_value(s) < pow10(s.len()),
    decreases s.len(),
{
    if s.len() > 0 {
        assert forall|j: int| 0 <= j < s.drop_last().len() implies is_digit_char(
            #[trigger] s.drop_last()[j],
        ) by {
            assert(s.drop_last()[j] == s[j]);
        }
        lemma_dec_value_upper(s.drop_last());
    }
}

/// A digit string with a nonzero leading digit reaches ten to one less
/// than its length.
pub proof fn lemma_dec_value_lower(s: Seq<char>)
    requires
        all_digits(s),
        s.len() > 0,
        s[0] != '0',
    ensures
        dec_value(s) >= pow10((s.len() - 1) as nat),
    decreases s.len(),
{
    let p = s.drop_last();
    assert(dec_value(s) == 10 * dec_value(p) + digit_val(s.last()));
    if s.len() == 1 {
        assert(p.len() == 0);
        assert(dec_value(p) == 0);
        assert(s.last() == s[0]);
        assert(s[0] > '0');
        assert(digit_val(s[0]) >= 1);
        assert(pow10(0) == 1);
    } else {
        assert forall|j: int| 0 <= j < p.len() implies is_digit_char(#[trigger] p[j]) by {
            assert(p[j] == s[j]);
        }
        assert(p[0] == s[0]);
        lemma_dec_value_lower(p);
        assert(dec_value(p) >= pow10((s.len() - 2) as nat));
        assert(10 * dec_value(p) >= 10 * pow10((s.len() - 2) as nat));
        assert(pow10((s.len() - 1) as nat) == 10 * pow10((s.len() - 2) as nat));
        assert(digit_val(s.last()) >= 0);
    }
}

/// Leading zeros do not change a digit string's value.
pub proof fn lemma_dec_value_skip_zeros(s: Seq<char>, k: int)
    requires
        0 <= k <= s.len(),
        forall|j: int| 0 <= j < k ==> s[j] == '0',
    ensures
        dec_value(s) == dec_value(s.skip(k)),
    decreases s.len(),
{
    if k == 0 {
        assert(s.skip(0) =~= s);
    } else if s.len() == k {
        let p = s.drop_last();
        assert forall|j: int| 0 <= j < k - 1 implies p[j] == '0' by {
            assert(p[j] == s[j]);
        }
        lemma_dec_value_skip_zeros(p, k - 1);
        assert(p.skip(k - 1) =~= Seq::<char>::empty());
        assert(s.skip(k) =~= Seq::<char>::empty());
        assert(digit_val(s.last()) == 0);
    } else {
        let p = s.drop_last();
        assert forall|j: int| 0 <= j < k implies p[j] == '0' by {
            assert(p[j] == s[j]);
        }
        lemma_dec_value_skip_zeros(p, k);
        assert(p.skip(k) =~= s.skip(k).drop_last());
        assert(s.skip(k).last() == s.last());
        assert(s.skip(k).len() > 0);
    }
}

pub open spec fn is_true_word(s: Seq<char>) -> bool {
    s.len() == 4 && (s[0] == 't' || s[0] == 'T') && (s[1] == 'r' || s[1] == 'R') && (s[2] == 'u'
        || s[2] == 'U') && (s[3] == 'e' || s[3] == 'E')
}

pub open spec fn is_false_word(s: Seq<char>) -> bool {
    s.len() == 5 && (s[0] == 'f' || s[0] == 'F') && (s[1] == 'a' || s[1] == 'A') && (s[2] == 'l'
        || s[2] == 'L') && (s[3] == 's' || s[3] == 'S') && (s[4] == 'e' || s[4] == 'E')
}

pub fn word_true(v: &Vec<char>) -> (r: bool)
    ensures
        r == is_true_word(v@),
{
    v.len() == 4 && (v[0] == 't' || v[0] == 'T') && (v[1] == 'r' || v[1] == 'R') && (v[2] == 'u'
        || v[2] == 'U') && (v[3] == 'e' || v[3] == 'E')
}

pub fn word_false(v: &Vec<char>) -> (r: bool)
    ensures
        r == is_false_word(v@),
{
    v.len() == 5 && (v[0] == 'f' || v[0] == 'F') && (v[1] == 'a' || v[1] == 'A') && (v[2] == 'l'
        || v[2] == 'L') && (v[3] == 's' || v[3] == 'S') && (v[4] == 'e' || v[4] == 'E')
}


pub open spec fn is_inf_word(s: Seq<char>) -> bool {
    s.len() == 3 && (s[0] == 'i' || s[0] == 'I') && (s[1] == 'n' || s[1] == 'N') && (s[2] == 'f'
        || s[2] == 'F')
}

pub open spec fn is_infinity_word(s: Seq<char>) -> bool {
    s.len() == 8 && (s[0] == 'i' || s[0] == 'I') && (s[1] == 'n' || s[1] == 'N') && (s[2] == 'f'
        || s[2] == 'F') && (s[3] == 'i' || s[3] == 'I') && (s[4] == 'n' || s[4] == 'N') && (s[5]
        == 'i' || s[5] == 'I') && (s[6] == 't' || s[6] == 'T') && (s[7] == 'y' || s[7] == 'Y')
}

pub open spec fn is_nan_word(s: Seq<char>) -> bool {
    s.len() == 3 && (s[0] == 'n' || s[0] == 'N') && (s[1] == 'a' || s[1] == 'A') && (s[2] == 'n'
        || s[2] == 'N')
}

/// A real token with a leading sign removed.
pub open spec fn real_body(s: Seq<char>) -> Seq<char> {
    if s.len() > 0 && (s[0] == '+' || s[0] == '-') {
        s.skip(1)
    } else {
        s
    }
}

pub open spec fn is_e_char(c: char) -> bool {
    c == 'e' || c == 'E'
}

/// Index of the first exponent marker, or `s.len()` if none.
pub open spec fn find_e(s: Seq<char>) -> int
    decreases s.len(),
{
    if s.len() == 0 {
        0
    } else if is_e_char(s[0]) {
        0
    } else {
        1 + find_e(s.skip(1))
    }
}

pub proof fn lemma_find_e(s: Seq<char>)
    ensures
        0 <= find_e(s) <= s.len(),
        find_e(s) < s.len() ==> is_e_char(s[find_e(s)]),
        forall|j: int| 0 <= j < find_e(s) ==> !is_e_char(s[j]),
    decreases s.len(),
{
    if s.len() > 0 && !is_e_char(s[0]) {
        lemma_find_e(s.skip(1));
        assert forall|j: int| 0 <= j < find_e(s) implies !is_e_char(s[j]) by {
            if j > 0 {
                assert(s.skip(1)[j - 1] == s[j]);
            }
        }
    }
}

pub proof fn lemma_find_e_unique(s: Seq<char>, k: int)
    requires
        0 <= k <= s.len(),
        forall|j: int| 0 <= j < k ==> !is_e_char(s[j]),
        k < s.len() ==> is_e_char(s[k]),
    ensures
        find_e(s) == k,
{
    lemma_find_e(s);
    let f = find_e(s);
    if f < k {
        assert(is_e_char(s[f]));
    }
    if k < f {
        assert(is_e_char(s[k]));
    }
}

/// An exponent body: an optional sign followed by one or more digits.
pub open spec fn is_signed_digits(t: Seq<char>) -> bool {
    if t.len() > 0 && (t[0] == '+' || t[0] == '-') {
        t.len() > 1 && all_digits(t.skip(1))
    } else {
        t.len() > 0 && all_digits(t)
    }
}

/// A mantissa: digits, optionally with one decimal point, with at least one
/// digit on one side of the point.
pub open spec fn is_mantissa(m: Seq<char>) -> bool {
    let d = find_char(m, '.');
    if d == m.len() {
        m.len() > 0 && all_digits(m)
    } else if 0 <= d < m.len() {
        (d > 0 && all_digits(m.take(d)) && all_digits(m.skip(d + 1))) || (d == 0 && m.len() > 1
            && all_digits(m.skip(1)))
    } else {
        false
    }
}

/// A mantissa optionally followed by an exponent part.
pub open spec fn is_real_number_body(s: Seq<char>) -> bool {
    let e = find_e(s);
    if e == s.len() {
        is_mantissa(s)
    } else if 0 <= e < s.len() {
        is_mantissa(s.take(e)) && is_signed_digits(s.skip(e + 1))
    } else {
        false
    }
}

/// The token shapes `str::parse::<f64>` accepts: an optional sign followed
/// by a number, `inf`, `infinity` or `nan` (the words case-insensitive).
pub open spec fn is_real_token(s: Seq<char>) -> bool {
    let b = real_body(s);
    is_inf_word(b) || is_infinity_word(b) || is_nan_word(b) || is_real_number_body(b)
}

/// A real token that reads as a NaN.
pub open spec fn is_nan_token(s: Seq<char>) -> bool {
    is_nan_word(real_body(s))
}

pub fn all_digits_range(v: &Vec<char>, lo: usize, hi: usize) -> (r: bool)
    requires
        lo <= hi <= v.len(),
    ensures
        r == all_digits(v@.subrange(lo as int, hi as int)),
{
    let ghost sub = v@.subrange(lo as int, hi as int);
    let mut i: usize = lo;
    while i < hi
        invariant
            lo <= i <= hi <= v.len(),
            sub == v@.subrange(lo as int, hi as int),
            forall|j: int| lo <= j < i ==> is_digit_char(#[trigger] v@[j]),
        decreases hi - i,
    {
        if !is_digit(v[i]) {
            proof {
                assert(sub[i - lo] == v@[i as int]);
            }
            return false;
        }
        i = i + 1;
    }
    proof {
        assert forall|j: int| 0 <= j < sub.len() implies is_digit_char(#[trigger] sub[j]) by {
            assert(sub[j] == v@[j + lo]);
        }
    }
    true
}

pub fn signed_digits_range(v: &Vec<char>, lo: usize, hi: usize) -> (r: bool)
    requires
        lo <= hi <= v.len(),
    ensures
        r == is_signed_digits(v@.subrange(lo as int, hi as int)),
{
    let ghost t = v@.subrange(lo as int, hi as int);
    if hi == lo {
        return false;
    }
    proof {
        assert(t[0] == v@[lo as int]);
    }
    if v[lo] == '+' || v[lo] == '-' {
        proof {
            assert(t.skip(1) =~= v@.subrange(lo + 1 as int, hi as int));
        }
        hi > lo + 1 && all_digits_range(v, lo + 1, hi)
    } else {
        all_digits_range(v, lo, hi)
    }
}

pub fn mantissa_range(v: &Vec<char>, lo: usize, hi: usize) -> (r: bool)
    requires
        lo <= hi <= v.len(),
    ensures
        r == is_mantissa(v@.subrange(lo as int, hi as int)),
{
    let ghost m = v@.subrange(lo as int, hi as int);
    let mut i: usize = lo;
    while i < hi && v[i] != '.'
        invariant
            lo <= i <= hi <= v.len(),
            m == v@.subrange(lo as int, hi as int),
            forall|j: int| lo <= j < i ==> v@[j] != '.',
        decreases hi - i,
    {
        i = i + 1;
    }
    proof {
        assert forall|j: int| 0 <= j < i - lo implies m[j] != '.' by {
            assert(m[j] == v@[j + lo]);
        }
        if i < hi {
            assert(m[i - lo] == v@[i as int]);
        }
        lemma_find_char_unique(m, '.', i - lo);
    }
    if i == hi {
        return hi > lo && all_digits_range(v, lo, hi);
    }
    proof {
        assert(m.take(i - lo) =~= v@.subrange(lo as int, i as int));
        assert(m.skip(i - lo + 1) =~= v@.subrange(i + 1 as int, hi as int));
        if i == lo {
            assert(m.skip(1) =~= v@.subrange(i + 1 as int, hi as int));
        }
    }
    let b_all = all_digits_range(v, i + 1, hi);
    let a_ok = i > lo && all_digits_range(v, lo, i);
    (a_ok && b_all) || (i == lo && hi > lo + 1 && b_all)
}

pub fn real_number_body_range(v: &Vec<char>, lo: usize, hi: usize) -> (r: bool)
    requires
        lo <= hi <= v.len(),
    ensures
        r == is_real_number_body(v@.subrange(lo as int, hi as int)),
{
    let ghost s = v@.subrange(lo as int, hi as int);
    let mut i: usize = lo;
    while i < hi && !(v[i] == 'e' || v[i] == 'E')
        invariant
            lo <= i <= hi <= v.len(),
            s == v@.subrange(lo as int, hi as int),
            forall|j: int| lo <= j < i ==> !is_e_char(#[trigger] v@[j]),
        decreases hi - i,
    {
        i = i + 1;
    }
    proof {
        assert forall|j: int| 0 <= j < i - lo implies !is_e_char(s[j]) by {
            assert(s[j] == v@[j + lo]);
        }
        if i < hi {
            assert(s[i - lo] == v@[i as int]);
        }
        lemma_find_e_unique(s, i - lo);
    }
    if i == hi {
        return mantissa_range(v, lo, hi);
    }
    proof {
        assert(s.take(i - lo) =~= v@.subrange(lo as int, i as int));
        assert(s.skip(i - lo + 1) =~= v@.subrange(i + 1 as int, hi as int));
    }
    mantissa_range(v, lo, i) && signed_digits_range(v, i + 1, hi)
}

pub fn is_real_token_chars(v: &Vec<char>) -> (r: bool)
    ensures
        r == is_real_token(v@),
{
    let n = v.len();
    let lo: usize = if n > 0 && (v[0] == '+' || v[0] == '-') {
        1
    } else {
        0
    };
    let ghost b = real_body(v@);
    proof {
        assert(b =~= v@.subrange(lo as int, n as int));
        assert forall|k: int| 0 <= k < b.len() implies b[k] == v@[k + lo] by {
        }
    }
    let inf_ok = n - lo == 3 && (v[lo] == 'i' || v[lo] == 'I') && (v[lo + 1] == 'n' || v[lo + 1]
        == 'N') && (v[lo + 2] == 'f' || v[lo + 2] == 'F');
    let infinity_ok = n - lo == 8 && (v[lo] == 'i' || v[lo] == 'I') && (v[lo + 1] == 'n' || v[lo
        + 1] == 'N') && (v[lo + 2] == 'f' || v[lo + 2] == 'F') && (v[lo + 3] == 'i' || v[lo + 3]
        == 'I') && (v[lo + 4] == 'n' || v[lo + 4] == 'N') && (v[lo + 5] == 'i' || v[lo + 5] == 'I')
        && (v[lo + 6] == 't' || v[lo + 6] == 'T') && (v[lo + 7] == 'y' || v[lo + 7] == 'Y');
    let nan_ok = n - lo == 3 && (v[lo] == 'n' || v[lo] == 'N') && (v[lo + 1] == 'a' || v[lo + 1]
        == 'A') && (v[lo + 2] == 'n' || v[lo + 2] == 'N');
    let num_ok = real_number_body_range(v, lo, n);
    proof {
        assert(inf_ok == is_inf_word(b));
        assert(infinity_ok == is_infinity_word(b));
        assert(nan_ok == is_nan_word(b));
        assert(num_ok == is_real_number_body(b));
    }
    inf_ok || infinity_ok || nan_ok || num_ok
}

pub fn is_nan_token_chars(v: &Vec<char>) -> (r: bool)
    ensures
        r == is_nan_token(v@),
{
    let n = v.len();
    let lo: usize = if n > 0 && (v[0] == '+' || v[0] == '-') {
        1
    } else {
        0
    };
    let ghost b = real_body(v@);
    proof {
        assert(b =~= v@.subrange(lo as int, n as int));
    }
    n - lo == 3 && (v[lo] == 'n' || v[lo] == 'N') && (v[lo + 1] == 'a' || v[lo + 1] == 'A') && (v[lo
        + 2] == 'n' || v[lo + 2] == 'N')
}

pub open spec fn digit_char(d: int) -> char {
    if d == 0 {
        '0'
    } else if d == 1 {
        '1'
    } else if d == 2 {
        '2'
    } else if d == 3 {
        '3'
    } else if d == 4 {
        '4'
    } else if d == 5 {
        '5'
    } else if d == 6 {
        '6'
    } else if d == 7 {
        '7'
    } else if d == 8 {
        '8'
    } else {
        '9'
    }
}

/// The decimal digit string of `n`, most significant digit first.
pub open spec fn dec_digits_of(n: nat) -> Seq<char>
    decreases n,
{
    if n < 10 {
        seq![digit_char(n as int)]
    } else {
        dec_digits_of(n / 10).push(digit_char((n % 10) as int))
    }
}

/// The decimal rendering of `x`, with a leading minus sign when negative.
pub open spec fn dec_string_of_int(x: int) -> Seq<char> {
    if x < 0 {
        seq!['-'] + dec_digits_of((-x) as nat)
    } else {
        dec_digits_of(x as nat)
    }
}

fn digit_char_exec(d: u64) -> (c: char)
    requires
        d <= 9,
    ensures
        c == digit_char(d as int),
{
    if d == 0 {
        '0'
    } else if d == 1 {
        '1'
    } else if d == 2 {
        '2'
    } else if d == 3 {
        '3'
    } else if d == 4 {
        '4'
    } else if d == 5 {
        '5'
    } else if d == 6 {
        '6'
    } else if d == 7 {
        '7'
    } else if d == 8 {
        '8'
    } else {
        '9'
    }
}

fn push_dec_u64(out: &mut Vec<char>, n: u64)
    ensures
        final(out)@ == old(out)@ + dec_digits_of(n as nat),
    decreases n,
{
    if n < 10 {
        out.push(digit_char_exec(n));
        proof {
            assert(final(out)@ =~= old(out)@ + seq![digit_char(n as int)]);
        }
    } else {
        push_dec_u64(out, n / 10);
        out.push(digit_char_exec(n % 10));
        proof {
            assert((old(out)@ + dec_digits_of((n / 10) as nat)).push(
                digit_char((n % 10) as int),
            ) =~= old(out)@ + dec_digits_of((n / 10) as nat).push(digit_char((n % 10) as int)));
        }
    }
}

pub fn i64_to_chars(x: i64) -> (r: Vec<char>)
    ensures
        r@ == dec_string_of_int(x as int),
{
    let mut out: Vec<char> = Vec::new();
    if x < 0 {
        out.push('-');
        let mag: u64 = if x == i64::MIN {
            9223372036854775808u64
        } else {
            (-x) as u64
        };
        proof {
            assert(out@ =~= seq!['-']);
        }
        push_dec_u64(&mut out, mag);
        proof {
            assert(mag as nat == (-(x as int)) as nat);
        }
    } else {
        push_dec_u64(&mut out, x as u64);
        proof {
            assert(Seq::<char>::empty() + dec_digits_of((x as int) as nat) =~= dec_digits_of(
                (x as int) as nat,
            ));
        }
    }
    out
}

/// One trailing carriage return removed, as `str::lines` does per line.
pub open spec fn strip_cr(p: Seq<char>) -> Seq<char> {
    if p.len() > 0 && p.last() == '\r' {
        p.drop_last()
    } else {
        p
    }
}

pub proof fn lemma_split_nonempty(s: Seq<char>, sep: char)
    ensures
        split_char_spec(s, sep).len() >= 1,
{
    let i = find_char(s, sep);
    if 0 <= i < s.len() {
    } else {
    }
}

/// The lines of `s`, as `str::lines` yields them: pieces between newlines,
/// without a final empty piece, each with one trailing `\r` removed.
pub open spec fn lines_spec(s: Seq<char>) -> Seq<Seq<char>> {
    let parts = split_char_spec(s, '\n');
    let kept = if s.len() == 0 || s.last() == '\n' {
        parts.drop_last()
    } else {
        parts
    };
    Seq::new(kept.len(), |i: int| strip_cr(kept[i]))
}

fn strip_cr_chars(p: Vec<char>) -> (r: Vec<char>)
    ensures
        r@ == strip_cr(p@),
{
    let mut p = p;
    if p.len() > 0 && p[p.len() - 1] == '\r' {
        p.pop();
    }
    p
}

pub fn lines_chars(v: &Vec<char>) -> (r: Vec<Vec<char>>)
    ensures
        seq_views(r@) == lines_spec(v@),
{
    let parts = split_chars(v, '\n');
    let ghost kept = if v@.len() == 0 || v@.last() == '\n' {
        split_char_spec(v@, '\n').drop_last()
    } else {
        split_char_spec(v@, '\n')
    };
    let mut parts = parts;
    proof {
        lemma_split_nonempty(v@, '\n');
    }
    if v.len() == 0 || v[v.len() - 1] == '\n' {
        parts.pop();
    }
    proof {
        assert(seq_views(parts@) =~= kept);
    }
    let mut out: Vec<Vec<char>> = Vec::new();
    let mut i: usize = 0;
    while i < parts.len()
        invariant
            i <= parts.len(),
            seq_views(parts@) == kept,
            out@.len() == i,
            forall|j: int| 0 <= j < i ==> #[trigger] out@[j]@ == strip_cr(kept[j]),
        decreases parts.len() - i,
    {
        let piece = parts[i].clone();
        proof {
            assert(piece@ =~= parts@[i as int]@);
        }
        let stripped = strip_cr_chars(piece);
        let ghost pre = out@;
        out.push(stripped);
        proof {
            assert(kept[i as int] == seq_views(parts@)[i as int]);
            assert(stripped@ == strip_cr(kept[i as int]));
            assert forall|j: int| 0 <= j < i + 1 implies #[trigger] out@[j]@ == strip_cr(
                kept[j],
            ) by {
                if j < pre.len() {
                    assert(out@[j] == pre[j]);
                } else {
                    assert(out@[j] == stripped);
                }
            }
        }
        i = i + 1;
    }
    proof {
        assert(kept.len() == seq_views(parts@).len());
        assert(seq_views(out@) =~= lines_spec(v@));
    }
    out
}

} // verus!
