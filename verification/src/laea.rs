//! Lambert Azimuthal Equal-Area: the operator constructor. The aspect
//! dispatch and the equal-area series are numeric work for the kernel
//! layer; construction validates the parameterization, rejecting a
//! central latitude that reads as a NaN or whose magnitude exceeds ninety
//! degrees.

use vstd::prelude::*;
use vstd::string::*;
use crate::error::Error;
use crate::gys::local_args_spec;
use crate::kv::{pair_views, map_has, map_val};
use crate::op::{Op, params_match, err_match, slot_ellps, slot_real};
use crate::params::{
    OpParameter, RawParameters, apply_gamut, empty_model, name_of, ignored_of, gamut_keys,
    lemma_gamut_ok_sets,
};
use crate::txt::{
    str_views, is_nan_token, is_nan_token_chars, str_to_chars, real_body, is_inf_word,
    is_infinity_word, is_nan_word, find_e, lemma_find_e_unique, find_char, lemma_find_char_unique,
    is_e_char, trim_match_start_spec, lemma_trim_match_start_at, dec_value, lemma_dec_value_step,
    lemma_dec_value_skip_zeros, lemma_dec_value_lower, pow10, lemma_pow10_mono,
    lemma_pow10_twenty, is_real_token, is_real_number_body, is_mantissa, is_signed_digits,
    all_digits, is_digit_char, digit_of,
};

verus! {


/// The digits of a mantissa, the decimal point removed.
pub open spec fn mantissa_digits(m: Seq<char>) -> Seq<char> {
    let d = find_char(m, '.');
    if 0 <= d < m.len() {
        m.take(d) + m.skip(d + 1)
    } else {
        m
    }
}

/// How many of a mantissa's digits stand right of the decimal point.
pub open spec fn mantissa_frac_len(m: Seq<char>) -> int {
    let d = find_char(m, '.');
    if 0 <= d < m.len() {
        m.len() - d - 1
    } else {
        0
    }
}

/// The signed value of an exponent part; zero where there is none.
pub open spec fn exp_value(t: Seq<char>) -> int {
    if t.len() == 0 {
        0
    } else if t[0] == '+' {
        dec_value(t.skip(1))
    } else if t[0] == '-' {
        -dec_value(t.skip(1))
    } else {
        dec_value(t)
    }
}

/// Whether a real token reads as more than ninety in magnitude: an
/// infinity word does; a number does where its leading significant digit,
/// placed by the decimal point and the exponent, stands left of the tens,
/// or stands at the tens as a nine followed by anything nonzero.
pub open spec fn real_gt_ninety(s: Seq<char>) -> bool {
    let b = real_body(s);
    if is_inf_word(b) || is_infinity_word(b) {
        true
    } else if is_nan_word(b) {
        false
    } else {
        let e = find_e(b);
        let m = b.take(e);
        let expd = if e < b.len() {
            b.skip(e + 1)
        } else {
            Seq::<char>::empty()
        };
        let sig = trim_match_start_spec(mantissa_digits(m), '0');
        let pos = sig.len() + exp_value(expd) - mantissa_frac_len(m);
        sig.len() > 0 && (pos > 2 || (pos == 2 && sig[0] == '9' && exists|j: int|
            1 <= j < sig.len() && sig[j] != '0'))
    }
}

/// The zero default of the latitude slots is a well-formed real token.
proof fn lemma_zero_is_real_token()
    ensures
        is_real_token("0"@),
{
    reveal_strlit("0");
    let s = "0"@;
    assert(s.len() == 1 && s[0] == '0');
    assert(real_body(s) == s);
    assert(s.skip(1) =~= Seq::<char>::empty());
    assert(find_e(Seq::<char>::empty()) == 0);
    assert(find_e(s) == 1);
    assert(find_char(Seq::<char>::empty(), '.') == 0);
    assert(find_char(s, '.') == 1);
    assert(all_digits(s));
    assert(is_mantissa(s));
    assert(is_real_number_body(s));
}

/// The digits of a mantissa with the point removed, and the count of its
/// fractional digits.
fn mantissa_parts(mv: &Vec<char>) -> (r: (Vec<char>, usize))
    ensures
        r.0@ == mantissa_digits(mv@),
        r.1 as int == mantissa_frac_len(mv@),
{
    let n = mv.len();
    let mut di: usize = 0;
    while di < n && mv[di] != '.'
        invariant
            di <= n,
            n == mv@.len(),
            forall|j: int| 0 <= j < di ==> mv@[j] != '.',
        decreases n - di,
    {
        di = di + 1;
    }
    proof {
        if di < n {
            lemma_find_char_unique(mv@, '.', di as int);
        } else {
            lemma_find_char_unique(mv@, '.', n as int);
        }
    }
    let mut dg: Vec<char> = Vec::new();
    let mut i: usize = 0;
    while i < di
        invariant
            i <= di <= n,
            n == mv@.len(),
            dg@ == mv@.subrange(0, i as int),
        decreases di - i,
    {
        dg.push(mv[i]);
        proof {
            assert(mv@.subrange(0, i + 1 as int) =~= mv@.subrange(0, i as int).push(
                mv@[i as int],
            ));
        }
        i = i + 1;
    }
    if di == n {
        proof {
            assert(dg@ =~= mv@);
            assert(dg@ =~= mantissa_digits(mv@));
        }
        return (dg, 0);
    }
    let mut i2: usize = di + 1;
    while i2 < n
        invariant
            di + 1 <= i2 <= n,
            n == mv@.len(),
            dg@ == mv@.subrange(0, di as int) + mv@.subrange(di + 1 as int, i2 as int),
        decreases n - i2,
    {
        dg.push(mv[i2]);
        proof {
            assert(mv@.subrange(di + 1 as int, i2 + 1 as int) =~= mv@.subrange(
                di + 1 as int,
                i2 as int,
            ).push(mv@[i2 as int]));
            assert(dg@ =~= mv@.subrange(0, di as int) + mv@.subrange(
                di + 1 as int,
                i2 + 1 as int,
            ));
        }
        i2 = i2 + 1;
    }
    proof {
        assert(mv@.take(di as int) =~= mv@.subrange(0, di as int));
        assert(mv@.skip(di + 1 as int) =~= mv@.subrange(di + 1 as int, n as int));
        assert(dg@ =~= mantissa_digits(mv@));
    }
    (dg, n - di - 1)
}

/// The signed value of an exponent part, where it fits; `None` stands for
/// a magnitude of at least ten to the twentieth, with the sign read off
/// the leading character.
fn exp_part_value(t: &Vec<char>) -> (r: Option<i128>)
    requires
        t@.len() == 0 || is_signed_digits(t@),
    ensures
        match r {
            Some(x) => exp_value(t@) == x as int && -100000000000000000000 < exp_value(t@)
                && exp_value(t@) < 100000000000000000000,
            None => (t@.len() > 0 && t@[0] == '-' && exp_value(t@) <= -100000000000000000000) || (
            t@.len() > 0 && t@[0] != '-' && exp_value(t@) >= 100000000000000000000),
        },
{
    let n = t.len();
    if n == 0 {
        return Some(0);
    }
    let mut neg: bool = false;
    let mut s0: usize = 0;
    if t[0] == '+' {
        s0 = 1;
    } else if t[0] == '-' {
        neg = true;
        s0 = 1;
    }
    let ghost ed = t@.skip(s0 as int);
    proof {
        if s0 == 1 {
            assert(ed =~= t@.skip(1));
        } else {
            assert(ed =~= t@);
        }
        assert(all_digits(ed));
        assert(ed.len() > 0);
    }
    let mut z2: usize = s0;
    while z2 < n && t[z2] == '0'
        invariant
            s0 <= z2 <= n,
            n == t@.len(),
            forall|j: int| s0 <= j < z2 ==> t@[j] == '0',
        decreases n - z2,
    {
        z2 = z2 + 1;
    }
    let ghost stripped = ed.skip(z2 - s0 as int);
    proof {
        assert forall|j: int| 0 <= j < z2 - s0 implies ed[j] == '0' by {
            assert(ed[j] == t@[j + s0]);
        }
        lemma_dec_value_skip_zeros(ed, z2 - s0 as int);
        assert forall|j: int| 0 <= j < stripped.len() implies is_digit_char(
            #[trigger] stripped[j],
        ) by {
            assert(stripped[j] == ed[j + (z2 - s0)]);
        }
    }
    let ll: usize = n - z2;
    if ll >= 21 {
        proof {
            assert(stripped.len() == ll);
            assert(stripped[0] == ed[z2 - s0]);
            assert(ed[z2 - s0] == t@[z2 as int]);
            assert(stripped[0] != '0');
            lemma_dec_value_lower(stripped);
            lemma_pow10_mono(20, (ll - 1) as nat);
            lemma_pow10_twenty();
        }
        return None;
    }
    let mut acc: u128 = 0;
    let mut q: usize = z2;
    proof {
        assert(stripped.take(0) =~= Seq::<char>::empty());
        assert(pow10(0) == 1);
    }
    while q < n
        invariant
            z2 <= q <= n,
            n == t@.len(),
            n - z2 <= 20,
            s0 <= z2,
            stripped == ed.skip(z2 - s0 as int),
            ed == t@.skip(s0 as int),
            all_digits(ed),
            acc as int == dec_value(stripped.take(q - z2)),
            (acc as int) < pow10((q - z2) as nat),
        decreases n - q,
    {
        proof {
            assert(stripped[q - z2] == ed[q - s0]);
            assert(ed[q - s0] == t@[q as int]);
            lemma_dec_value_step(stripped, q - z2);
            assert(stripped.take(q + 1 - z2).take(q - z2) =~= stripped.take(q - z2));
            lemma_pow10_mono((q - z2 + 1) as nat, 20);
            lemma_pow10_twenty();
        }
        let d = digit_of(t[q]);
        acc = 10 * acc + (d as u128);
        q = q + 1;
    }
    proof {
        assert(stripped.take(stripped.len() as int) =~= stripped);
        lemma_pow10_mono((n - z2) as nat, 20);
        lemma_pow10_twenty();
        assert(acc as int == dec_value(ed));
    }
    if neg {
        Some(-(acc as i128))
    } else {
        Some(acc as i128)
    }
}

/// Decide `real_gt_ninety` on a validated token.
#[verifier::rlimit(100)]
fn gt_ninety_chars(v: &Vec<char>) -> (r: bool)
    requires
        is_real_token(v@),
    ensures
        r == real_gt_ninety(v@),
{
    let n = v.len();
    let lo: usize = if n > 0 && (v[0] == '+' || v[0] == '-') {
        1
    } else {
        0
    };
    let ghost b = real_body(v@);
    proof {
        assert(b =~= v@.subrange(lo as int, n as int));
    }
    let inf_ok = n - lo == 3 && (v[lo] == 'i' || v[lo] == 'I') && (v[lo + 1] == 'n' || v[lo + 1]
        == 'N') && (v[lo + 2] == 'f' || v[lo + 2] == 'F');
    let infinity_ok = n - lo == 8 && (v[lo] == 'i' || v[lo] == 'I') && (v[lo + 1] == 'n' || v[lo
        + 1] == 'N') && (v[lo + 2] == 'f' || v[lo + 2] == 'F') && (v[lo + 3] == 'i' || v[lo + 3]
        == 'I') && (v[lo + 4] == 'n' || v[lo + 4] == 'N') && (v[lo + 5] == 'i' || v[lo + 5] == 'I')
        && (v[lo + 6] == 't' || v[lo + 6] == 'T') && (v[lo + 7] == 'y' || v[lo + 7] == 'Y');
    let nan_ok = n - lo == 3 && (v[lo] == 'n' || v[lo] == 'N') && (v[lo + 1] == 'a' || v[lo + 1]
        == 'A') && (v[lo + 2] == 'n' || v[lo + 2] == 'N');
    proof {
        assert(inf_ok == is_inf_word(b));
        assert(infinity_ok == is_infinity_word(b));
        assert(nan_ok == is_nan_word(b));
    }
    if inf_ok || infinity_ok {
        return true;
    }
    if nan_ok {
        return false;
    }
    proof {
        assert(is_real_number_body(b));
    }
    let mut ei: usize = lo;
    while ei < n && !(v[ei] == 'e' || v[ei] == 'E')
        invariant
            lo <= ei <= n,
            n == v@.len(),
            forall|j: int| lo <= j < ei ==> !is_e_char(#[trigger] v@[j]),
        decreases n - ei,
    {
        ei = ei + 1;
    }
    proof {
        assert forall|j: int| 0 <= j < ei - lo implies !is_e_char(b[j]) by {
            assert(b[j] == v@[j + lo]);
        }
        if ei < n {
            assert(b[ei - lo] == v@[ei as int]);
        }
        lemma_find_e_unique(b, ei - lo);
    }
    let ghost m = b.take(ei - lo);
    let mut mv: Vec<char> = Vec::new();
    let mut i: usize = lo;
    while i < ei
        invariant
            lo <= i <= ei <= n,
            n == v@.len(),
            mv@ == v@.subrange(lo as int, i as int),
        decreases ei - i,
    {
        mv.push(v[i]);
        proof {
            assert(v@.subrange(lo as int, i + 1 as int) =~= v@.subrange(lo as int, i as int).push(
                v@[i as int],
            ));
        }
        i = i + 1;
    }
    proof {
        assert(mv@ =~= m);
    }
    let parts = mantissa_parts(&mv);
    let dg = parts.0;
    let fr = parts.1;
    let mut z: usize = 0;
    while z < dg.len() && dg[z] == '0'
        invariant
            z <= dg@.len(),
            forall|j: int| 0 <= j < z ==> dg@[j] == '0',
        decreases dg.len() - z,
    {
        z = z + 1;
    }
    proof {
        lemma_trim_match_start_at(dg@, '0', z as int);
    }
    let ghost sig = trim_match_start_spec(mantissa_digits(m), '0');
    let sl: usize = dg.len() - z;
    if sl == 0 {
        return false;
    }
    let ghost expd = if ei - lo < b.len() {
        b.skip(ei - lo + 1)
    } else {
        Seq::<char>::empty()
    };
    let mut ev: Vec<char> = Vec::new();
    if ei < n {
        let mut i3: usize = ei + 1;
        while i3 < n
            invariant
                ei + 1 <= i3 <= n,
                n == v@.len(),
                ev@ == v@.subrange(ei + 1 as int, i3 as int),
            decreases n - i3,
        {
            ev.push(v[i3]);
            proof {
                assert(v@.subrange(ei + 1 as int, i3 + 1 as int) =~= v@.subrange(
                    ei + 1 as int,
                    i3 as int,
                ).push(v@[i3 as int]));
            }
            i3 = i3 + 1;
        }
    }
    proof {
        assert(ev@ =~= expd);
        if ei < n {
            assert(is_signed_digits(expd));
        }
    }
    let expo = exp_part_value(&ev);
    match expo {
        None => {
            // The exponent dwarfs every possible digit count: its sign
            // decides.
            proof {
                assert(sl <= dg@.len() && dg@.len() <= mv@.len() && mv@.len() <= n);
                assert(fr <= mv@.len());
                assert(n <= usize::MAX);
                assert(usize::MAX as int <= u64::MAX as int);
            }
            if ev.len() > 0 && ev[0] == '-' {
                return false;
            }
            return true;
        },
        Some(expo_i) => {
            proof {
                assert(sl <= dg@.len() && dg@.len() <= mv@.len() && mv@.len() <= n);
                assert(fr <= mv@.len());
                assert(n <= usize::MAX);
                assert(usize::MAX as int <= u64::MAX as int);
            }
            let pos: i128 = sl as i128 + expo_i - (fr as i128);
            proof {
                assert(pos as int == sig.len() + exp_value(expd) - mantissa_frac_len(m));
            }
            if pos > 2 {
                return true;
            }
            if pos < 2 {
                return false;
            }
            proof {
                assert(sig[0] == dg@[z as int]);
            }
            if dg[z] != '9' {
                return false;
            }
            let mut w: usize = z + 1;
            let mut found: bool = false;
            while !found && w < dg.len()
                invariant
                    z < dg@.len(),
                    z + 1 <= w <= dg@.len(),
                    forall|j: int| z + 1 <= j < w ==> dg@[j] == '0',
                    found ==> w < dg@.len() && dg@[w as int] != '0',
                decreases dg.len() - w, (if found { 0int } else { 1int }),
            {
                if dg[w] != '0' {
                    found = true;
                } else {
                    w = w + 1;
                }
            }
            proof {
                if found {
                    assert(sig[w - z] == dg@[w as int]);
                } else {
                    assert forall|j: int| 1 <= j < sig.len() implies sig[j] == '0' by {
                        assert(sig[j] == dg@[j + z]);
                    }
                }
            }
            found
        },
    }
}

/// The schema of the equal-area operator.
pub open spec fn is_laea_gamut(g: Seq<OpParameter>) -> bool {
    &&& g.len() == 6
    &&& (g[0] matches OpParameter::Flag { key } && key@ == "inv"@)
    &&& (g[1] matches OpParameter::Text { key, default } && key@ == "ellps"@ && (default matches
        Some(d) && d@ == "GRS80"@))
    &&& (g[2] matches OpParameter::Real { key, default } && key@ == "lat_0"@ && (default matches
        Some(d) && d@ == "0"@))
    &&& (g[3] matches OpParameter::Real { key, default } && key@ == "lon_0"@ && (default matches
        Some(d) && d@ == "0"@))
    &&& (g[4] matches OpParameter::Real { key, default } && key@ == "x_0"@ && (default matches
        Some(d) && d@ == "0"@))
    &&& (g[5] matches OpParameter::Real { key, default } && key@ == "y_0"@ && (default matches
        Some(d) && d@ == "0"@))
}

/// What the equal-area operator accepts.
pub fn gamut() -> (r: Vec<OpParameter>)
    ensures
        is_laea_gamut(r@),
{
    let mut g: Vec<OpParameter> = Vec::new();
    g.push(OpParameter::Flag { key: String::from_str("inv") });
    g.push(
        OpParameter::Text {
            key: String::from_str("ellps"),
            default: Some(String::from_str("GRS80")),
        },
    );
    g.push(
        OpParameter::Real { key: String::from_str("lat_0"), default: Some(String::from_str("0")) },
    );
    g.push(
        OpParameter::Real { key: String::from_str("lon_0"), default: Some(String::from_str("0")) },
    );
    g.push(
        OpParameter::Real { key: String::from_str("x_0"), default: Some(String::from_str("0")) },
    );
    g.push(
        OpParameter::Real { key: String::from_str("y_0"), default: Some(String::from_str("0")) },
    );
    g
}

/// An equal-area operator built from one step: the parameters resolve as
/// the schema application says, and a central latitude that reads as a
/// NaN, as an infinity, or as more than ninety degrees in magnitude is
/// rejected with the definition as the offending value.
pub open spec fn laea_built(
    r: Result<Op, Error>,
    def: Seq<char>,
    gv: Seq<(Seq<char>, Seq<char>)>,
    depth: nat,
    g: Seq<OpParameter>,
) -> bool {
    let lv = local_args_spec(def);
    let out = apply_gamut(empty_model(), g, 0, gv, lv, depth);
    match r {
        Ok(op) => out matches Ok(mdl) && {
            &&& map_has(mdl.reals, "lat_0"@)
            &&& !is_nan_token(map_val(mdl.reals, "lat_0"@))
            &&& !real_gt_ninety(map_val(mdl.reals, "lat_0"@))
            &&& params_match(op.params, mdl)
            &&& op.params.wf()
            &&& op.descriptor.definition@ == def
            &&& op.descriptor.invertible == true
            &&& op.descriptor.inverted == mdl.booleans.contains("inv"@)
            &&& op.steps@.len() == 0
            &&& op.params.name@ == name_of(lv)
            &&& str_views(op.params.ignored@) == ignored_of(lv, gamut_keys(g))
            &&& op.params.ellps@.len() == 2 && op.params.ellps@[0]@ == slot_ellps(mdl)
            &&& op.params.lat@.len() == 4 && op.params.lat@[0]@ == slot_real(mdl, "lat_0"@)
            &&& op.params.lon@.len() == 4 && op.params.lon@[0]@ == slot_real(mdl, "lon_0"@)
            &&& op.params.x@.len() == 4 && op.params.x@[0]@ == slot_real(mdl, "x_0"@)
            &&& op.params.y@.len() == 4 && op.params.y@[0]@ == slot_real(mdl, "y_0"@)
        },
        Err(e) => (out matches Ok(mdl) && map_has(mdl.reals, "lat_0"@) && (is_nan_token(
            map_val(mdl.reals, "lat_0"@),
        ) || real_gt_ninety(map_val(mdl.reals, "lat_0"@))) && (e matches Error::BadParam(s, w)
            && s@ == "lat_0"@ && w@ == def)) || (out matches Err(pe) && err_match(e, pe)),
    }
}

/// Construct an equal-area operator from one step.
pub fn new(parameters: &RawParameters) -> (r: Result<Op, Error>)
    ensures
        exists|g: Seq<OpParameter>|
            #[trigger] is_laea_gamut(g) && laea_built(
                r,
                parameters.definition@,
                pair_views(parameters.globals@),
                parameters.recursion_depth as nat,
                g,
            ),
{
    let g = gamut();
    proof {
        assert(is_laea_gamut(g@));
    }
    let op = match Op::plain(parameters, &g, true) {
        Err(e) => {
            return Err(e);
        },
        Ok(op) => op,
    };
    let ghost lv = local_args_spec(parameters.definition@);
    let ghost gv = pair_views(parameters.globals@);
    let ghost depth = parameters.recursion_depth as nat;
    let ghost mdl = apply_gamut(empty_model(), g@, 0, gv, lv, depth)->Ok_0;
    proof {
        lemma_gamut_ok_sets(empty_model(), g@, 0, gv, lv, depth, mdl, 2);
    }
    proof {
        lemma_laea_lat_token(g@, gv, lv, depth, mdl);
    }
    let lat0 = match op.params.real_text("lat_0") {
        Ok(v) => v,
        Err(_) => {
            proof {
                assert(false);
            }
            return Err(Error::Unknown);
        },
    };
    let lc = str_to_chars(lat0.as_str());
    if is_nan_token_chars(&lc) || gt_ninety_chars(&lc) {
        return Err(Error::BadParam(String::from_str("lat_0"), parameters.definition.clone()));
    }
    Ok(op)
}

/// A successful application of the equal-area schema stores a central
/// latitude, as the first real entry, and it is a validated token: either
/// a chased value the coercion accepted, or the zero default.
proof fn lemma_laea_lat_token(
    g: Seq<OpParameter>,
    gv: Seq<(Seq<char>, Seq<char>)>,
    lv: Seq<(Seq<char>, Seq<char>)>,
    depth: nat,
    mdl: crate::params::PModel,
)
    requires
        is_laea_gamut(g),
        apply_gamut(empty_model(), g, 0, gv, lv, depth) == Ok::<
            crate::params::PModel,
            crate::params::PErr,
        >(mdl),
    ensures
        map_has(mdl.reals, "lat_0"@),
        is_real_token(map_val(mdl.reals, "lat_0"@)),
{
    reveal_strlit("lat_0");
    reveal_strlit("lon_0");
    reveal_strlit("x_0");
    reveal_strlit("y_0");
    assert("lat_0"@ != "lon_0"@) by {
        assert("lat_0"@[1] == 'a' && "lon_0"@[1] == 'o');
    }
    assert("x_0"@ != "y_0"@) by {
        assert("x_0"@[0] == 'x' && "y_0"@[0] == 'y');
    }
    assert("lat_0"@.len() == 5 && "lon_0"@.len() == 5 && "x_0"@.len() == 3 && "y_0"@.len() == 3);
    let e0 = crate::params::apply_entry(empty_model(), g[0], gv, lv, depth);
    let m1 = e0->Ok_0;
    assert(e0 is Ok && m1.reals == empty_model().reals);
    assert(apply_gamut(empty_model(), g, 0, gv, lv, depth) == apply_gamut(m1, g, 1, gv, lv, depth));
    let e1 = crate::params::apply_entry(m1, g[1], gv, lv, depth);
    let m2 = e1->Ok_0;
    assert(e1 is Ok && m2.reals == m1.reals);
    assert(apply_gamut(m1, g, 1, gv, lv, depth) == apply_gamut(m2, g, 2, gv, lv, depth));
    let e2 = crate::params::apply_entry(m2, g[2], gv, lv, depth);
    let m3 = e2->Ok_0;
    assert(e2 is Ok);
    assert(apply_gamut(m2, g, 2, gv, lv, depth) == apply_gamut(m3, g, 3, gv, lv, depth));
    assert(m2.reals.len() == 0);
    assert(m3.reals.len() == 1 && m3.reals[0].0 == "lat_0"@ && is_real_token(m3.reals[0].1)) by {
        match crate::params::chase_outcome(gv, lv, "lat_0"@, depth) {
            crate::gys::LookupResult::Found(vv) => {
                assert(is_real_token(vv));
            },
            crate::gys::LookupResult::Defaulted(vv) => {
                assert(is_real_token(vv));
            },
            crate::gys::LookupResult::Missing => {
                lemma_zero_is_real_token();
            },
            _ => {},
        }
    }
    let e3 = crate::params::apply_entry(m3, g[3], gv, lv, depth);
    let m4 = e3->Ok_0;
    assert(e3 is Ok);
    assert(apply_gamut(m3, g, 3, gv, lv, depth) == apply_gamut(m4, g, 4, gv, lv, depth));
    assert(m4.reals.len() == 2 && m4.reals[0] == m3.reals[0] && m4.reals[1].0 == "lon_0"@) by {
        crate::kv::lemma_map_find_unique(m3.reals, "lon_0"@, 1);
    }
    let e4 = crate::params::apply_entry(m4, g[4], gv, lv, depth);
    let m5 = e4->Ok_0;
    assert(e4 is Ok);
    assert(apply_gamut(m4, g, 4, gv, lv, depth) == apply_gamut(m5, g, 5, gv, lv, depth));
    assert(m5.reals.len() == 3 && m5.reals[0] == m3.reals[0] && m5.reals[1] == m4.reals[1]
        && m5.reals[2].0 == "x_0"@) by {
        crate::kv::lemma_map_find_unique(m4.reals, "x_0"@, 2);
    }
    let e5 = crate::params::apply_entry(m5, g[5], gv, lv, depth);
    let m6 = e5->Ok_0;
    assert(e5 is Ok);
    assert(apply_gamut(m5, g, 5, gv, lv, depth) == apply_gamut(m6, g, 6, gv, lv, depth));
    assert(apply_gamut(m6, g, 6, gv, lv, depth) == Ok::<
        crate::params::PModel,
        crate::params::PErr,
    >(m6));
    assert(m6.reals.len() == 4 && m6.reals[0] == m3.reals[0]) by {
        crate::kv::lemma_map_find_unique(m5.reals, "y_0"@, 3);
    }
    crate::kv::lemma_map_find_unique(mdl.reals, "lat_0"@, 0);
}

} // verus!
