//! Hand-written parsers for run-argument values: `KEY=value` variable
//! bindings and `(min,max)` range tuples.

use vstd::prelude::*;

verus! {

/// A run-argument string could not be parsed.
#[derive(Clone, Copy, Debug, PartialEq, Eq, Structural)]
pub enum ParseError {
    /// No `=` separator in a `KEY=value` pair.
    MissingSeparator,
    /// A number field is empty, holds a non-digit, or does not fit.
    InvalidNumber,
    /// Not a two-field `(a,b)` tuple.
    InvalidTuple,
}

/// A decimal digit.
pub open spec fn is_dec_digit(c: char) -> bool {
    48 <= (c as u32) <= 57
}

/// Every character is a decimal digit.
pub open spec fn all_digits(s: Seq<char>) -> bool {
    forall|i: int| 0 <= i < s.len() ==> is_dec_digit(#[trigger] s[i])
}

/// The value of a decimal digit string.
pub open spec fn dec_value(s: Seq<char>) -> int
    decreases s.len(),
{
    if s.len() == 0 {
        0
    } else {
        dec_value(s.drop_last()) * 10 + ((s.last() as u32) - 48)
    }
}

/// Longer digit strings never have smaller values.
proof fn lemma_dec_value_take_grows(s: Seq<char>, j: int)
    requires
        all_digits(s),
        0 <= j <= s.len(),
    ensures
        dec_value(s.take(j)) <= dec_value(s),
        dec_value(s) >= 0,
    decreases s.len(),
{
    if s.len() == 0 {
    } else {
        assert(s.drop_last() =~= s.take(s.len() - 1));
        assert(all_digits(s.drop_last()));
        lemma_dec_value_take_grows(s.drop_last(), if j <= s.len() - 1 {
            j
        } else {
            s.len() - 1
        });
        if j == s.len() {
            assert(s.take(j) =~= s);
        } else {
            assert(s.take(j) =~= s.drop_last().take(j));
        }
    }
}

/// The position of the first `=`, if any.
pub open spec fn first_eq(s: Seq<char>) -> Option<int>
    decreases s.len(),
{
    if s.len() == 0 {
        None
    } else if s[0] == '=' {
        Some(0)
    } else {
        match first_eq(s.drop_first()) {
            Some(k) => Some(k + 1),
            None => None,
        }
    }
}

/// The first `=` is the first position holding one.
proof fn lemma_first_eq_at(s: Seq<char>, k: int)
    requires
        0 <= k < s.len(),
        s[k] == '=',
        forall|q: int| 0 <= q < k ==> s[q] != '=',
    ensures
        first_eq(s) == Some(k),
    decreases s.len(),
{
    if k > 0 {
        lemma_first_eq_at(s.drop_first(), k - 1);
    }
}

/// A string without `=` has no first `=`.
proof fn lemma_first_eq_none(s: Seq<char>)
    requires
        forall|q: int| 0 <= q < s.len() ==> s[q] != '=',
    ensures
        first_eq(s) is None,
    decreases s.len(),
{
    if s.len() > 0 {
        lemma_first_eq_none(s.drop_first());
    }
}

/// Parses an unsigned decimal digit string.
fn parse_usize_digits(s: &str) -> (r: Result<usize, ParseError>)
    ensures
        match r {
            Ok(v) => s@.len() > 0 && all_digits(s@) && v as int == dec_value(s@),
            Err(e) => e == ParseError::InvalidNumber && (s@.len() == 0 || !all_digits(s@)
                || dec_value(s@) > usize::MAX),
        },
{
    let n = s.unicode_len();
    if n == 0 {
        return Err(ParseError::InvalidNumber);
    }
    let mut acc: usize = 0;
    let mut i: usize = 0;
    while i < n
        invariant
            i <= n,
            n == s@.len(),
            acc as int == dec_value(s@.take(i as int)),
            forall|j: int| 0 <= j < i ==> is_dec_digit(#[trigger] s@[j]),
        decreases n - i,
    {
        let c = s.get_char(i);
        let cv = c as u32;
        if cv < 48 || cv > 57 {
            return Err(ParseError::InvalidNumber);
        }
        let d = (cv - 48) as usize;
        let next = match acc.checked_mul(10) {
            None => None,
            Some(m) => m.checked_add(d),
        };
        proof {
            assert(s@.take(i + 1).drop_last() =~= s@.take(i as int));
            assert(s@.take(i + 1).last() == s@[i as int]);
        }
        acc = match next {
            None => {
                proof {
                    assert(all_digits(s@.take(i + 1)));
                    if all_digits(s@) {
                        lemma_dec_value_take_grows(s@, i + 1);
                    }
                }
                return Err(ParseError::InvalidNumber);
            },
            Some(v) => v,
        };
        i = i + 1;
    }
    proof {
        assert(s@.take(n as int) =~= s@);
    }
    Ok(acc)
}

/// Parses a `KEY=value` variable binding, splitting at the first `=`: the
/// key as given (any text), the value as an unsigned decimal with an
/// optional leading `+`. Fails with `MissingSeparator` exactly when no `=`
/// occurs, with `InvalidNumber` exactly when the value part denotes no
/// number or one beyond the machine word, and succeeds otherwise.
pub fn parse_key_val(s: &str) -> (r: Result<(String, usize), ParseError>)
    ensures
        match r {
            Ok(kv) => first_eq(s@) matches Some(p) && kv.0@ == s@.subrange(0, p)
                && unsigned_value(s@.subrange(p + 1, s@.len() as int)) == Some(kv.1 as int),
            Err(e) => match e {
                ParseError::MissingSeparator => first_eq(s@) is None,
                ParseError::InvalidNumber => first_eq(s@) matches Some(p) && {
                    let uv = unsigned_value(s@.subrange(p + 1, s@.len() as int));
                    uv is None || (uv matches Some(v) && v > usize::MAX)
                },
                _ => false,
            },
        },
{
    let n = s.unicode_len();
    let mut p: usize = 0;
    let mut pos: usize = 0;
    let mut found: bool = false;
    while p < n
        invariant
            p <= n,
            n == s@.len(),
            !found ==> forall|q: int| 0 <= q < p ==> s@[q] != '=',
            found ==> pos < n && s@[pos as int] == '=' && forall|q: int|
                0 <= q < pos ==> s@[q] != '=',
        decreases n - p,
    {
        if !found {
            if s.get_char(p) == '=' {
                found = true;
                pos = p;
            }
        }
        p = p + 1;
    }
    if !found {
        proof {
            lemma_first_eq_none(s@);
        }
        return Err(ParseError::MissingSeparator);
    }
    proof {
        lemma_first_eq_at(s@, pos as int);
    }
    let key = s.substring_char(0, pos).to_owned();
    let rest = s.substring_char(pos + 1, n);
    let m = rest.unicode_len();
    let digits = if m > 0 && rest.get_char(0) == '+' {
        rest.substring_char(1, m)
    } else {
        rest
    };
    proof {
        if rest@.len() > 0 && rest@[0] == '+' {
            assert(digits@ =~= rest@.drop_first());
        }
    }
    let v = match parse_usize_digits(digits) {
        Err(e) => {
            return Err(e);
        },
        Ok(v) => v,
    };
    Ok((key, v))
}

/// A parenthesis character.
pub open spec fn is_paren(c: char) -> bool {
    c == '(' || c == ')'
}

/// The string with all leading and trailing parentheses removed.
pub open spec fn strip_parens(s: Seq<char>) -> Seq<char>
    decreases s.len(),
{
    if s.len() > 0 && is_paren(s[0]) {
        strip_parens(s.drop_first())
    } else if s.len() > 0 && is_paren(s.last()) {
        strip_parens(s.drop_last())
    } else {
        s
    }
}

/// A whitespace character trimmed around tuple fields: the characters the
/// standard library's trimming treats as white space.
pub open spec fn is_wspace(c: char) -> bool {
    c == ' ' || c == '\t' || c == '\n' || c == '\r' || c == '\u{B}' || c == '\u{C}' || c
        == '\u{85}' || c == '\u{A0}' || c == '\u{1680}' || c == '\u{2000}' || c == '\u{2001}'
        || c == '\u{2002}' || c == '\u{2003}' || c == '\u{2004}' || c == '\u{2005}' || c
        == '\u{2006}' || c == '\u{2007}' || c == '\u{2008}' || c == '\u{2009}' || c
        == '\u{200A}' || c == '\u{2028}' || c == '\u{2029}' || c == '\u{202F}' || c
        == '\u{205F}' || c == '\u{3000}'
}

/// Whether a character is trimmed around tuple fields.
fn char_is_wspace(c: char) -> (r: bool)
    ensures
        r == is_wspace(c),
{
    c == ' ' || c == '\t' || c == '\n' || c == '\r' || c == '\u{B}' || c == '\u{C}' || c
        == '\u{85}' || c == '\u{A0}' || c == '\u{1680}' || c == '\u{2000}' || c == '\u{2001}'
        || c == '\u{2002}' || c == '\u{2003}' || c == '\u{2004}' || c == '\u{2005}' || c
        == '\u{2006}' || c == '\u{2007}' || c == '\u{2008}' || c == '\u{2009}' || c
        == '\u{200A}' || c == '\u{2028}' || c == '\u{2029}' || c == '\u{202F}' || c
        == '\u{205F}' || c == '\u{3000}'
}

/// The string with all leading and trailing blanks removed.
pub open spec fn trim_spaces(s: Seq<char>) -> Seq<char>
    decreases s.len(),
{
    if s.len() > 0 && is_wspace(s[0]) {
        trim_spaces(s.drop_first())
    } else if s.len() > 0 && is_wspace(s.last()) {
        trim_spaces(s.drop_last())
    } else {
        s
    }
}

/// The position of the first comma, if any.
pub open spec fn first_comma(s: Seq<char>) -> Option<int>
    decreases s.len(),
{
    if s.len() == 0 {
        None
    } else if s[0] == ',' {
        Some(0)
    } else {
        match first_comma(s.drop_first()) {
            Some(k) => Some(k + 1),
            None => None,
        }
    }
}

/// The value of a digit string with an optional leading `+`.
pub open spec fn unsigned_value(s: Seq<char>) -> Option<int> {
    if s.len() > 0 && s[0] == '+' {
        if s.len() > 1 && all_digits(s.drop_first()) {
            Some(dec_value(s.drop_first()))
        } else {
            None
        }
    } else if s.len() > 0 && all_digits(s) {
        Some(dec_value(s))
    } else {
        None
    }
}

/// The value of a digit string with an optional leading `+` or `-`.
pub open spec fn signed_value(s: Seq<char>) -> Option<int> {
    if s.len() > 0 && s[0] == '-' {
        if s.len() > 1 && all_digits(s.drop_first()) {
            Some(-dec_value(s.drop_first()))
        } else {
            None
        }
    } else {
        unsigned_value(s)
    }
}

/// What a `(a,b)` tuple string denotes: parentheses stripped, split at the
/// single comma, both fields trimmed of blanks and read as signed decimals.
pub open spec fn tuple_spec(s: Seq<char>) -> Option<(int, int)> {
    let t = strip_parens(s);
    match first_comma(t) {
        None => None,
        Some(c) => {
            if first_comma(t.skip(c + 1)) is Some {
                None
            } else {
                match (signed_value(trim_spaces(t.take(c))), signed_value(
                    trim_spaces(t.skip(c + 1)),
                )) {
                    (Some(a), Some(b)) => Some((a, b)),
                    _ => None,
                }
            }
        },
    }
}

/// The first comma is the first position holding a comma.
proof fn lemma_first_comma_at(s: Seq<char>, k: int)
    requires
        0 <= k < s.len(),
        s[k] == ',',
        forall|q: int| 0 <= q < k ==> s[q] != ',',
    ensures
        first_comma(s) == Some(k),
    decreases s.len(),
{
    if k > 0 {
        lemma_first_comma_at(s.drop_first(), k - 1);
    }
}

/// A string without commas has no first comma.
proof fn lemma_first_comma_none(s: Seq<char>)
    requires
        forall|q: int| 0 <= q < s.len() ==> s[q] != ',',
    ensures
        first_comma(s) is None,
    decreases s.len(),
{
    if s.len() > 0 {
        lemma_first_comma_none(s.drop_first());
    }
}

/// A field value the tuple parser accepts: the full signed machine range.
pub open spec fn field_fits(v: int) -> bool {
    i128::MIN <= v <= i128::MAX
}

/// Parses an unsigned decimal digit string into a wide word.
fn parse_u128_digits(s: &str) -> (r: Result<u128, ParseError>)
    ensures
        match r {
            Ok(v) => s@.len() > 0 && all_digits(s@) && v as int == dec_value(s@),
            Err(e) => e == ParseError::InvalidNumber && (s@.len() == 0 || !all_digits(s@)
                || dec_value(s@) > u128::MAX),
        },
{
    let n = s.unicode_len();
    if n == 0 {
        return Err(ParseError::InvalidNumber);
    }
    let mut acc: u128 = 0;
    let mut i: usize = 0;
    while i < n
        invariant
            i <= n,
            n == s@.len(),
            acc as int == dec_value(s@.take(i as int)),
            forall|j: int| 0 <= j < i ==> is_dec_digit(#[trigger] s@[j]),
        decreases n - i,
    {
        let c = s.get_char(i);
        let cv = c as u32;
        if cv < 48 || cv > 57 {
            return Err(ParseError::InvalidNumber);
        }
        let d = (cv - 48) as u128;
        let next = match acc.checked_mul(10) {
            None => None,
            Some(m) => m.checked_add(d),
        };
        proof {
            assert(s@.take(i + 1).drop_last() =~= s@.take(i as int));
            assert(s@.take(i + 1).last() == s@[i as int]);
        }
        acc = match next {
            None => {
                proof {
                    assert(all_digits(s@.take(i + 1)));
                    if all_digits(s@) {
                        lemma_dec_value_take_grows(s@, i + 1);
                    }
                }
                return Err(ParseError::InvalidNumber);
            },
            Some(v) => v,
        };
        i = i + 1;
    }
    proof {
        assert(s@.take(n as int) =~= s@);
    }
    Ok(acc)
}

/// Parses a signed decimal field: an optional `+` or `-`, then digits.
/// Fails exactly when the field denotes no number or one outside the
/// machine range.
fn parse_signed(s: &str) -> (r: Result<i128, ParseError>)
    ensures
        match r {
            Ok(v) => signed_value(s@) == Some(v as int),
            Err(e) => e == ParseError::InvalidNumber && (signed_value(s@) is None || (signed_value(
                s@,
            ) matches Some(v) && !field_fits(v))),
        },
{
    let n = s.unicode_len();
    if n == 0 {
        return Err(ParseError::InvalidNumber);
    }
    let c0 = s.get_char(0);
    if c0 == '-' {
        let rest = s.substring_char(1, n);
        proof {
            assert(rest@ =~= s@.drop_first());
        }
        match parse_u128_digits(rest) {
            Err(e) => {
                proof {
                    if !(rest@.len() == 0 || !all_digits(rest@)) {
                        assert(dec_value(rest@) > u128::MAX);
                    }
                }
                Err(e)
            },
            Ok(v) => {
                if v > 0x80000000000000000000000000000000u128 {
                    Err(ParseError::InvalidNumber)
                } else if v == 0x80000000000000000000000000000000u128 {
                    // the magnitude of the least machine value
                    Ok(i128::MIN)
                } else {
                    Ok(-(v as i128))
                }
            },
        }
    } else {
        let digits = if c0 == '+' {
            s.substring_char(1, n)
        } else {
            s
        };
        proof {
            if s@[0] == '+' {
                assert(digits@ =~= s@.drop_first());
            }
        }
        match parse_u128_digits(digits) {
            Err(e) => {
                proof {
                    if !(digits@.len() == 0 || !all_digits(digits@)) {
                        assert(dec_value(digits@) > u128::MAX);
                    }
                }
                Err(e)
            },
            Ok(v) => {
                proof {
                    if s@[0] != '+' {
                        assert(s@[0] != '-') by {
                            assert(is_dec_digit(s@[0]));
                        }
                    }
                }
                if v > 0x7fffffffffffffffffffffffffffffffu128 {
                    Err(ParseError::InvalidNumber)
                } else {
                    Ok(v as i128)
                }
            },
        }
    }
}

/// Trims leading and trailing blanks of `s` between `lo` and `hi`, returning
/// the narrowed bounds.
fn trim_bounds(s: &str, lo: usize, hi: usize) -> (r: (usize, usize))
    requires
        lo <= hi <= s@.len(),
    ensures
        lo <= r.0 <= r.1 <= hi,
        trim_spaces(s@.subrange(lo as int, hi as int)) == s@.subrange(r.0 as int, r.1 as int),
        r.0 < r.1 ==> !is_wspace(s@[r.0 as int]) && !is_wspace(s@[r.1 - 1]),
{
    let mut a: usize = lo;
    let mut b: usize = hi;
    let mut stop: bool = false;
    while !stop && a < b
        invariant
            lo <= a <= b <= hi,
            hi <= s@.len(),
            trim_spaces(s@.subrange(lo as int, hi as int)) == trim_spaces(
                s@.subrange(a as int, b as int),
            ),
            stop ==> a < b && !is_wspace(s@[a as int]),
        decreases b - a + (if stop {
            0int
        } else {
            1int
        }),
    {
        let ca = s.get_char(a);
        if char_is_wspace(ca) {
            proof {
                assert(s@.subrange(a as int, b as int).drop_first() =~= s@.subrange(
                    a + 1,
                    b as int,
                ));
            }
            a = a + 1;
        } else {
            stop = true;
        }
    }
    let ghost front_done: usize = a;
    let mut stop2: bool = false;
    while !stop2 && a < b
        invariant
            lo <= a <= b <= hi,
            a == front_done,
            hi <= s@.len(),
            trim_spaces(s@.subrange(lo as int, hi as int)) == trim_spaces(
                s@.subrange(a as int, b as int),
            ),
            a < b ==> !is_wspace(s@[a as int]),
            stop2 ==> a < b && !is_wspace(s@[b - 1]),
        decreases b - a + (if stop2 {
            0int
        } else {
            1int
        }),
    {
        let cb = s.get_char(b - 1);
        if char_is_wspace(cb) {
            proof {
                assert(s@.subrange(a as int, b as int).drop_last() =~= s@.subrange(
                    a as int,
                    b - 1,
                ));
            }
            b = b - 1;
        } else {
            stop2 = true;
        }
    }
    proof {
        let t = s@.subrange(a as int, b as int);
        if a < b {
            assert(t[0] == s@[a as int]);
            assert(t.last() == s@[b - 1]);
        }
        assert(trim_spaces(t) == t);
    }
    (a, b)
}

/// Parses a `(min,max)` tuple: parentheses stripped, exactly two signed
/// decimal fields separated by a comma, whitespace around each field
/// ignored. Fails with `InvalidTuple` exactly when the comma structure is
/// wrong, with `InvalidNumber` exactly when a field denotes no number or
/// one outside the machine range, and succeeds otherwise.
pub fn parse_tuple(s: &str) -> (r: Result<(i128, i128), ParseError>)
    ensures
        match r {
            Ok(v) => tuple_spec(s@) == Some((v.0 as int, v.1 as int)),
            Err(e) => match e {
                ParseError::InvalidTuple => tuple_spec(s@) is None,
                ParseError::InvalidNumber => tuple_spec(s@) is None || (tuple_spec(
                    s@,
                ) matches Some(ab) && !(field_fits(ab.0) && field_fits(ab.1))),
                _ => false,
            },
        },
{
    let n = s.unicode_len();
    // strip leading, then trailing parentheses
    let mut lo: usize = 0;
    let mut hi: usize = n;
    proof {
        assert(s@.subrange(0, n as int) =~= s@);
    }
    let mut stopf: bool = false;
    while !stopf && lo < hi
        invariant
            lo <= hi <= n,
            n == s@.len(),
            strip_parens(s@) == strip_parens(s@.subrange(lo as int, hi as int)),
            stopf ==> lo < hi && !is_paren(s@[lo as int]),
        decreases hi - lo + (if stopf {
            0int
        } else {
            1int
        }),
    {
        let c = s.get_char(lo);
        if c == '(' || c == ')' {
            proof {
                assert(s@.subrange(lo as int, hi as int).drop_first() =~= s@.subrange(
                    lo + 1,
                    hi as int,
                ));
            }
            lo = lo + 1;
        } else {
            stopf = true;
        }
    }
    let ghost lo_done: usize = lo;
    let mut stopb: bool = false;
    while !stopb && lo < hi
        invariant
            lo <= hi <= n,
            lo == lo_done,
            n == s@.len(),
            strip_parens(s@) == strip_parens(s@.subrange(lo as int, hi as int)),
            lo < hi ==> !is_paren(s@[lo as int]),
            stopb ==> lo < hi && !is_paren(s@[hi - 1]),
        decreases hi - lo + (if stopb {
            0int
        } else {
            1int
        }),
    {
        let c = s.get_char(hi - 1);
        if c == '(' || c == ')' {
            proof {
                assert(s@.subrange(lo as int, hi as int).drop_last() =~= s@.subrange(
                    lo as int,
                    hi - 1,
                ));
            }
            hi = hi - 1;
        } else {
            stopb = true;
        }
    }
    let ghost t = s@.subrange(lo as int, hi as int);
    proof {
        if lo < hi {
            assert(t[0] == s@[lo as int]);
            assert(t.last() == s@[hi - 1]);
        }
        assert(strip_parens(t) == t);
    }
    // find the single comma
    let mut p: usize = lo;
    let mut pos: usize = 0;
    let mut found: bool = false;
    while p < hi
        invariant
            lo <= p <= hi <= n,
            n == s@.len(),
            !found ==> forall|q: int| lo <= q < p ==> s@[q] != ',',
            found ==> lo <= pos < hi && s@[pos as int] == ',' && forall|q: int|
                lo <= q < pos ==> s@[q] != ',',
        decreases hi - p,
    {
        if !found {
            if s.get_char(p) == ',' {
                found = true;
                pos = p;
            }
        }
        p = p + 1;
    }
    if !found {
        proof {
            lemma_first_comma_none(t);
        }
        return Err(ParseError::InvalidTuple);
    }
    proof {
        lemma_first_comma_at(t, pos - lo);
    }
    // refuse a second comma
    let mut p2: usize = pos + 1;
    while p2 < hi
        invariant
            pos < p2 <= hi <= n,
            lo <= pos < hi,
            n == s@.len(),
            t == s@.subrange(lo as int, hi as int),
            strip_parens(s@) == t,
            first_comma(t) == Some((pos - lo) as int),
            forall|q: int| pos < q < p2 ==> s@[q] != ',',
        decreases hi - p2,
    {
        if s.get_char(p2) == ',' {
            proof {
                let rest = t.skip(pos - lo + 1);
                assert(rest =~= s@.subrange(pos + 1, hi as int));
                assert(rest[p2 - pos - 1] == s@[p2 as int]);
                lemma_first_comma_at(rest, p2 - pos - 1);
            }
            return Err(ParseError::InvalidTuple);
        }
        p2 = p2 + 1;
    }
    proof {
        assert(t.skip(pos - lo + 1) =~= s@.subrange(pos + 1, hi as int));
        lemma_first_comma_none(t.skip(pos - lo + 1));
    }
    // trim and parse the two fields
    let (l1, h1) = trim_bounds(s, lo, pos);
    let (l2, h2) = trim_bounds(s, pos + 1, hi);
    proof {
        assert(t.take(pos - lo) =~= s@.subrange(lo as int, pos as int));
    }
    let left = s.substring_char(l1, h1);
    let a = match parse_signed(left) {
        Err(e) => {
            proof {
                assert(left@ == trim_spaces(t.take(pos - lo)));
            }
            return Err(e);
        },
        Ok(v) => v,
    };
    let right = s.substring_char(l2, h2);
    let b = match parse_signed(right) {
        Err(e) => {
            proof {
                assert(left@ == trim_spaces(t.take(pos - lo)));
                assert(right@ == trim_spaces(t.skip(pos - lo + 1)));
            }
            return Err(e);
        },
        Ok(v) => v,
    };
    proof {
        assert(trim_spaces(t.take(pos - lo)) == s@.subrange(l1 as int, h1 as int));
        assert(trim_spaces(t.skip(pos - lo + 1)) == s@.subrange(l2 as int, h2 as int));
    }
    Ok((a, b))
}

} // verus!
