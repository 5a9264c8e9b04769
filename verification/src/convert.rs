use vstd::prelude::*;
use crate::model::{Conv, Scalar, ScalarKind, ScalarV, scalar_view};
use crate::strutil::{push_char, reverse_str, str_eq};

verus! {

// ---------------------------------------------------------------------------
// Decimal integers.
// ---------------------------------------------------------------------------

pub open spec fn is_digit(c: char) -> bool {
    48 <= (c as int) && (c as int) <= 57
}

pub open spec fn digit_val(c: char) -> int {
    (c as int) - 48
}

pub open spec fn digit_char(d: int) -> char {
    if d == 0 {
        '0'
    } else if d == 1 {
        '1'
    } else if d == 2 {
        '2'
    } else if d == 3 {
        '3'
    } else if d == 4 {
        '4'
    } else if d == 5 {
        '5'
    } else if d == 6 {
        '6'
    } else if d == 7 {
        '7'
    } else if d == 8 {
        '8'
    } else {
        '9'
    }
}

/// The character for one digit value.
pub fn digit_to_char(d: u64) -> (c: char)
    requires
        d < 10,
    ensures
        c == digit_char(d as int),
        is_digit(c),
        digit_val(c) == d as int,
{
    if d == 0 {
        '0'
    } else if d == 1 {
        '1'
    } else if d == 2 {
        '2'
    } else if d == 3 {
        '3'
    } else if d == 4 {
        '4'
    } else if d == 5 {
        '5'
    } else if d == 6 {
        '6'
    } else if d == 7 {
        '7'
    } else if d == 8 {
        '8'
    } else {
        '9'
    }
}

/// The decimal digits of a nonnegative number, most significant first.
pub open spec fn spec_digits(n: int) -> Seq<char>
    decreases n,
{
    if n < 10 {
        seq![digit_char(n)]
    } else {
        spec_digits(n / 10).push(digit_char(n % 10))
    }
}

/// The decimal rendering of an integer, with `-` for negative values.
pub open spec fn spec_int_chars(v: int) -> Seq<char> {
    if v < 0 {
        seq!['-'] + spec_digits(-v)
    } else {
        spec_digits(v)
    }
}

pub open spec fn all_digits(s: Seq<char>) -> bool {
    forall|i: int| 0 <= i < s.len() ==> is_digit(s[i])
}

/// The value of a digit string, most significant first.
pub open spec fn digits_val(s: Seq<char>) -> int
    decreases s.len(),
{
    if s.len() == 0 {
        0
    } else {
        digits_val(s.drop_last()) * 10 + digit_val(s.last())
    }
}

/// The number denoted by the text: an optional sign, then one or more
/// digits, and the value must fit in a 64-bit signed integer.
pub open spec fn spec_parse_int(s: Seq<char>) -> Option<int> {
    let neg = s.len() > 0 && s[0] == '-';
    let ds = if s.len() > 0 && (s[0] == '-' || s[0] == '+') {
        s.skip(1)
    } else {
        s
    };
    if ds.len() > 0 && all_digits(ds) {
        let v = if neg {
            -digits_val(ds)
        } else {
            digits_val(ds)
        };
        if i64::MIN as int <= v && v <= i64::MAX as int {
            Some(v)
        } else {
            None
        }
    } else {
        None
    }
}

pub proof fn lemma_digits_shape(n: int)
    requires
        n >= 0,
    ensures
        spec_digits(n).len() >= 1,
        all_digits(spec_digits(n)),
    decreases n,
{
    if n >= 10 {
        lemma_digits_shape(n / 10);
        let s = spec_digits(n / 10);
        assert(forall|i: int| 0 <= i < s.push(digit_char(n % 10)).len() ==> is_digit(
            #[trigger] s.push(digit_char(n % 10))[i],
        ));
    }
}

pub proof fn lemma_digits_val(n: int)
    requires
        n >= 0,
    ensures
        digits_val(spec_digits(n)) == n,
    decreases n,
{
    if n < 10 {
        let s = seq![digit_char(n)];
        assert(spec_digits(n) == s);
        assert(s.drop_last() =~= Seq::<char>::empty());
        assert(digits_val(Seq::<char>::empty()) == 0);
        assert(digits_val(s) == digits_val(s.drop_last()) * 10 + digit_val(s.last()));
        assert(digit_val(digit_char(n)) == n);
    } else {
        lemma_digits_val(n / 10);
        let s = spec_digits(n / 10);
        assert(spec_digits(n) == s.push(digit_char(n % 10)));
        assert(s.push(digit_char(n % 10)).drop_last() =~= s);
        assert(s.push(digit_char(n % 10)).last() == digit_char(n % 10));
        assert(digit_val(digit_char(n % 10)) == n % 10);
        assert(digits_val(spec_digits(n)) == digits_val(s) * 10 + (n % 10));
    }
}

pub proof fn lemma_digits_val_nonneg(s: Seq<char>)
    requires
        all_digits(s),
    ensures
        digits_val(s) >= 0,
    decreases s.len(),
{
    if s.len() > 0 {
        assert(all_digits(s.drop_last()));
        lemma_digits_val_nonneg(s.drop_last());
    }
}

/// Extending a digit string only increases its value.
pub proof fn lemma_digits_val_mono(s: Seq<char>, k: int)
    requires
        all_digits(s),
        0 <= k <= s.len(),
    ensures
        digits_val(s) >= digits_val(s.take(k)),
    decreases s.len() - k,
{
    if k == s.len() {
        assert(s.take(k) =~= s);
    } else {
        assert(s.take(k + 1).drop_last() =~= s.take(k));
        assert(all_digits(s.take(k)));
        lemma_digits_val_nonneg(s.take(k));
        assert(digits_val(s.take(k + 1)) >= digits_val(s.take(k)));
        lemma_digits_val_mono(s, k + 1);
    }
}

/// Parsing the rendering of an integer gives that integer back.
pub proof fn lemma_parse_int_chars(v: int)
    requires
        i64::MIN as int <= v <= i64::MAX as int,
    ensures
        spec_parse_int(spec_int_chars(v)) == Some(v),
{
    if v >= 0 {
        let s = spec_digits(v);
        lemma_digits_shape(v);
        lemma_digits_val(v);
        assert(is_digit(s[0]));
        assert(s[0] != '-' && s[0] != '+');
    } else {
        let m = -v;
        let s = seq!['-'] + spec_digits(m);
        lemma_digits_shape(m);
        lemma_digits_val(m);
        assert(s[0] == '-');
        assert(s.skip(1) =~= spec_digits(m));
    }
}

/// Appends the decimal digits of `n`.
pub fn push_digits(n: u64, out: &mut String)
    ensures
        final(out)@ == old(out)@ + spec_digits(n as int),
    decreases n,
{
    if n < 10 {
        let c = digit_to_char(n);
        push_char(out, c);
        proof {
            assert(old(out)@.push(c) =~= old(out)@ + seq![c]);
        }
    } else {
        let ghost pre = out@;
        push_digits(n / 10, out);
        let c = digit_to_char(n % 10);
        push_char(out, c);
        proof {
            assert((pre + spec_digits(n as int / 10)).push(c) =~= pre + spec_digits(
                n as int / 10,
            ).push(c));
        }
    }
}

/// The decimal rendering of a 64-bit signed integer.
pub fn format_int(v: i64) -> (r: String)
    ensures
        r@ == spec_int_chars(v as int),
{
    let mut out = String::new();
    if v < 0 {
        out.append("-");
        proof {
            reveal_strlit("-");
            assert("-"@ =~= seq!['-']);
        }
        let mag = (-(v as i128)) as u64;
        proof {
            assert(mag as int == -(v as int));
        }
        push_digits(mag, &mut out);
        proof {
            assert(Seq::<char>::empty() + seq!['-'] =~= seq!['-']);
        }
    } else {
        push_digits(v as u64, &mut out);
        proof {
            assert(Seq::<char>::empty() + spec_digits(v as int) =~= spec_digits(v as int));
        }
    }
    out
}

/// Parses an optional sign and decimal digits; `None` on any other text or
/// when the value does not fit in a 64-bit signed integer.
pub fn parse_int(s: &str) -> (r: Option<i64>)
    ensures
        (r matches Some(x) ==> spec_parse_int(s@) == Some(x as int)),
        (r is None ==> spec_parse_int(s@) is None),
{
    let n = s.unicode_len();
    let mut i: usize = 0;
    let mut neg = false;
    if n > 0 {
        let c0 = s.get_char(0);
        if c0 == '-' {
            neg = true;
            i = 1;
        } else if c0 == '+' {
            i = 1;
        }
    }
    if i == n {
        return None;
    }
    let ghost ds = if s@.len() > 0 && (s@[0] == '-' || s@[0] == '+') {
        s@.skip(1)
    } else {
        s@
    };
    proof {
        if i == 1 {
            assert(ds =~= s@.skip(1));
        } else {
            assert(ds =~= s@);
        }
    }
    let mut acc: u128 = 0;
    let mut j: usize = i;
    while j < n
        invariant
            n == s@.len(),
            i <= j <= n,
            i <= 1,
            ds == (if s@.len() > 0 && (s@[0] == '-' || s@[0] == '+') {
                s@.skip(1)
            } else {
                s@
            }),
            neg == (s@.len() > 0 && s@[0] == '-'),
            ds.len() == n - i,
            forall|k: int| 0 <= k < ds.len() ==> ds[k] == s@[k + i],
            all_digits(ds.take(j - i)),
            acc == digits_val(ds.take(j - i)),
            acc <= u64::MAX as u128,
        decreases n - j,
    {
        let c = s.get_char(j);
        let cv = c as u32;
        proof {
            assert(ds[j - i] == s@[j as int]);
        }
        if cv < 48 || cv > 57 {
            proof {
                assert(!is_digit(ds[j - i]));
                assert(!all_digits(ds));
            }
            return None;
        }
        let d = (cv - 48) as u128;
        let na = acc * 10 + d;
        proof {
            assert(ds.take(j - i + 1).drop_last() =~= ds.take(j - i));
            assert(ds.take(j - i + 1).last() == ds[j - i]);
        }
        if na > u64::MAX as u128 {
            proof {
                if all_digits(ds) {
                    lemma_digits_val_mono(ds, j - i + 1);
                    assert(digits_val(ds) >= na as int);
                }
            }
            return None;
        }
        acc = na;
        j = j + 1;
    }
    proof {
        assert(ds.take(n - i) =~= ds);
    }
    if neg {
        if acc > 9223372036854775808u128 {
            return None;
        }
        if acc == 9223372036854775808u128 {
            return Some(i64::MIN);
        }
        Some(-(acc as i64))
    } else {
        if acc > 9223372036854775807u128 {
            return None;
        }
        Some(acc as i64)
    }
}

// ---------------------------------------------------------------------------
// Scalar display, position-dependent formatting, and parsing.
// ---------------------------------------------------------------------------

/// The generic, position-independent rendering of a scalar.
pub open spec fn spec_display(sv: ScalarV) -> Seq<char> {
    match sv {
        ScalarV::Str(t) => t,
        ScalarV::Bool(b) => if b {
            seq!['t', 'r', 'u', 'e']
        } else {
            seq!['f', 'a', 'l', 's', 'e']
        },
        ScalarV::Int(v) => spec_int_chars(v),
    }
}

/// What a field's converter emits: in attribute position a boolean becomes
/// `1`/`0`; in text position it becomes `true`/`false`; the custom converter
/// reverses the generic rendering in either position.
pub open spec fn spec_format(attr_pos: bool, conv: Conv, sv: ScalarV) -> Seq<char> {
    match conv {
        Conv::Std => match sv {
            ScalarV::Bool(b) => if attr_pos {
                if b {
                    seq!['1']
                } else {
                    seq!['0']
                }
            } else {
                spec_display(sv)
            },
            _ => spec_display(sv),
        },
        Conv::Rev => spec_display(sv).reverse(),
    }
}

/// The boolean vocabulary accepted when reading a standard-converted field.
pub open spec fn spec_parse_bool_vocab(s: Seq<char>) -> Option<bool> {
    if s == seq!['t'] || s == seq!['t', 'r', 'u', 'e'] || s == seq!['y'] || s == seq![
        'y',
        'e',
        's',
    ] || s == seq!['o', 'n'] || s == seq!['1'] {
        Some(true)
    } else if s == seq!['f'] || s == seq!['f', 'a', 'l', 's', 'e'] || s == seq!['n'] || s == seq![
        'n',
        'o',
    ] || s == seq!['o', 'f', 'f'] || s == seq!['0'] {
        Some(false)
    } else {
        None
    }
}

/// The value shape's own text-parse contract, with no vocabulary extension:
/// what a mapping entry or a custom converter parses with.
pub open spec fn spec_parse_generic(kind: ScalarKind, s: Seq<char>) -> Option<ScalarV> {
    match kind {
        ScalarKind::Str => Some(ScalarV::Str(s)),
        ScalarKind::Bool => if s == seq!['t', 'r', 'u', 'e'] {
            Some(ScalarV::Bool(true))
        } else if s == seq!['f', 'a', 'l', 's', 'e'] {
            Some(ScalarV::Bool(false))
        } else {
            None
        },
        ScalarKind::Int => match spec_parse_int(s) {
            Some(v) => Some(ScalarV::Int(v)),
            None => None,
        },
    }
}

/// What a field's converter accepts: the standard converter extends the
/// boolean parse with the vocabulary; the custom converter reverses the raw
/// text and applies the generic parse.
pub open spec fn spec_parse(kind: ScalarKind, conv: Conv, s: Seq<char>) -> Option<ScalarV> {
    match conv {
        Conv::Std => match kind {
            ScalarKind::Bool => match spec_parse_bool_vocab(s) {
                Some(b) => Some(ScalarV::Bool(b)),
                None => None,
            },
            _ => spec_parse_generic(kind, s),
        },
        Conv::Rev => spec_parse_generic(kind, s.reverse()),
    }
}

/// The kind a scalar value belongs to.
pub open spec fn kind_of(sv: ScalarV) -> ScalarKind {
    match sv {
        ScalarV::Str(_) => ScalarKind::Str,
        ScalarV::Bool(_) => ScalarKind::Bool,
        ScalarV::Int(_) => ScalarKind::Int,
    }
}

/// An integer scalar fits in 64 bits; every value built by the engines does.
pub open spec fn scalar_v_wf(sv: ScalarV) -> bool {
    match sv {
        ScalarV::Int(v) => i64::MIN as int <= v <= i64::MAX as int,
        _ => true,
    }
}

pub proof fn lemma_parse_generic_display(sv: ScalarV)
    requires
        scalar_v_wf(sv),
    ensures
        spec_parse_generic(kind_of(sv), spec_display(sv)) == Some(sv),
{
    match sv {
        ScalarV::Str(_) => {
        },
        ScalarV::Bool(b) => {
        },
        ScalarV::Int(v) => {
            lemma_parse_int_chars(v);
        },
    }
}

/// Reading back what a field's converter wrote restores the value, in
/// either position; in particular a custom-converted field round-trips
/// through the converter's own inverse.
pub proof fn lemma_parse_format(attr_pos: bool, conv: Conv, sv: ScalarV)
    requires
        scalar_v_wf(sv),
    ensures
        spec_parse(kind_of(sv), conv, spec_format(attr_pos, conv, sv)) == Some(sv),
{
    match conv {
        Conv::Std => {
            match sv {
                ScalarV::Bool(b) => {
                },
                _ => {
                    lemma_parse_generic_display(sv);
                },
            }
        },
        Conv::Rev => {
            assert(spec_display(sv).reverse().reverse() =~= spec_display(sv));
            lemma_parse_generic_display(sv);
        },
    }
}

/// The generic rendering, as the mapping writer uses it.
pub fn display_scalar(s: &Scalar) -> (r: String)
    ensures
        r@ == spec_display(scalar_view(*s)),
{
    match s {
        Scalar::Str(x) => x.clone(),
        Scalar::Bool(b) => {
            if *b {
                let r = String::from_str("true");
                proof {
                    reveal_strlit("true");
                    assert("true"@ =~= seq!['t', 'r', 'u', 'e']);
                }
                r
            } else {
                let r = String::from_str("false");
                proof {
                    reveal_strlit("false");
                    assert("false"@ =~= seq!['f', 'a', 'l', 's', 'e']);
                }
                r
            }
        },
        Scalar::Int(v) => format_int(*v),
    }
}

/// Formats one scalar for an attribute (`attr_pos`) or text position.
pub fn format_scalar(s: &Scalar, conv: Conv, attr_pos: bool) -> (r: String)
    ensures
        r@ == spec_format(attr_pos, conv, scalar_view(*s)),
{
    match conv {
        Conv::Std => {
            match s {
                Scalar::Bool(b) => {
                    if attr_pos {
                        if *b {
                            let r = String::from_str("1");
                            proof {
                                reveal_strlit("1");
                                assert("1"@ =~= seq!['1']);
                            }
                            r
                        } else {
                            let r = String::from_str("0");
                            proof {
                                reveal_strlit("0");
                                assert("0"@ =~= seq!['0']);
                            }
                            r
                        }
                    } else {
                        display_scalar(s)
                    }
                },
                _ => display_scalar(s),
            }
        },
        Conv::Rev => {
            let d = display_scalar(s);
            reverse_str(d.as_str())
        },
    }
}

/// Parses one scalar with the generic contract (mapping entries).
pub fn parse_generic(kind: ScalarKind, raw: &str) -> (r: Option<Scalar>)
    ensures
        (r matches Some(sc) ==> spec_parse_generic(kind, raw@) == Some(scalar_view(sc))),
        (r is None ==> spec_parse_generic(kind, raw@) is None),
{
    match kind {
        ScalarKind::Str => Some(Scalar::Str(String::from_str(raw))),
        ScalarKind::Bool => {
            proof {
                reveal_strlit("true");
                reveal_strlit("false");
                assert("true"@ =~= seq!['t', 'r', 'u', 'e']);
                assert("false"@ =~= seq!['f', 'a', 'l', 's', 'e']);
            }
            if str_eq(raw, "true") {
                Some(Scalar::Bool(true))
            } else if str_eq(raw, "false") {
                Some(Scalar::Bool(false))
            } else {
                None
            }
        },
        ScalarKind::Int => {
            match parse_int(raw) {
                Some(v) => Some(Scalar::Int(v)),
                None => None,
            }
        },
    }
}

/// Parses one scalar with the field's converter.
pub fn parse_scalar(kind: ScalarKind, conv: Conv, raw: &str) -> (r: Option<Scalar>)
    ensures
        (r matches Some(sc) ==> spec_parse(kind, conv, raw@) == Some(scalar_view(sc))),
        (r is None ==> spec_parse(kind, conv, raw@) is None),
{
    match conv {
        Conv::Std => {
            match kind {
                ScalarKind::Bool => {
                    proof {
                        reveal_strlit("t");
                        reveal_strlit("true");
                        reveal_strlit("y");
                        reveal_strlit("yes");
                        reveal_strlit("on");
                        reveal_strlit("1");
                        reveal_strlit("f");
                        reveal_strlit("false");
                        reveal_strlit("n");
                        reveal_strlit("no");
                        reveal_strlit("off");
                        reveal_strlit("0");
                        assert("t"@ =~= seq!['t']);
                        assert("true"@ =~= seq!['t', 'r', 'u', 'e']);
                        assert("y"@ =~= seq!['y']);
                        assert("yes"@ =~= seq!['y', 'e', 's']);
                        assert("on"@ =~= seq!['o', 'n']);
                        assert("1"@ =~= seq!['1']);
                        assert("f"@ =~= seq!['f']);
                        assert("false"@ =~= seq!['f', 'a', 'l', 's', 'e']);
                        assert("n"@ =~= seq!['n']);
                        assert("no"@ =~= seq!['n', 'o']);
                        assert("off"@ =~= seq!['o', 'f', 'f']);
                        assert("0"@ =~= seq!['0']);
                    }
                    if str_eq(raw, "t") || str_eq(raw, "true") || str_eq(raw, "y") || str_eq(
                        raw,
                        "yes",
                    ) || str_eq(raw, "on") || str_eq(raw, "1") {
                        Some(Scalar::Bool(true))
                    } else if str_eq(raw, "f") || str_eq(raw, "false") || str_eq(raw, "n")
                        || str_eq(raw, "no") || str_eq(raw, "off") || str_eq(raw, "0") {
                        Some(Scalar::Bool(false))
                    } else {
                        None
                    }
                },
                _ => parse_generic(kind, raw),
            }
        },
        Conv::Rev => {
            let rev = reverse_str(raw);
            parse_generic(kind, rev.as_str())
        },
    }
}

} // verus!
