//! String utilities shared by the whole library: prefix tests and prefix
//! surgery for path translation, slash normalization, line-ending
//! normalization, and decimal parsing.

use vstd::prelude::*;

verus! {

/// A character is a decimal digit.
pub open spec fn is_digit_char(c: char) -> bool {
    48 <= c as u32 <= 57
}

/// All characters of the sequence are decimal digits.
pub open spec fn all_digit_chars(s: Seq<char>) -> bool {
    forall|i: int| 0 <= i < s.len() ==> is_digit_char(#[trigger] s[i])
}

/// Numeric value of a sequence of decimal digit characters.
pub open spec fn chars_value(s: Seq<char>) -> nat
    decreases s.len(),
{
    if s.len() == 0 {
        0
    } else {
        (chars_value(s.drop_last()) * 10 + (s.last() as u32 - 48)) as nat
    }
}

/// The numeric value of a digit string never decreases as the string grows.
proof fn lemma_chars_value_monotone(s: Seq<char>, i: int, j: int)
    requires
        0 <= i <= j <= s.len(),
        all_digit_chars(s),
    ensures
        chars_value(s.subrange(0, i)) <= chars_value(s.subrange(0, j)),
    decreases j - i,
{
    if i < j {
        lemma_chars_value_monotone(s, i, j - 1);
        let a = s.subrange(0, j - 1);
        let b = s.subrange(0, j);
        assert(b.drop_last() =~= a);
        assert(chars_value(b) == chars_value(a) * 10 + (b.last() as u32 - 48));
        assert(chars_value(a) <= chars_value(a) * 10) by (nonlinear_arith);
    }
}

/// Parse a decimal string to `u64`.
///
/// Returns `Some` exactly when the string is non-empty, all digits, and its
/// value fits in a `u64`; out-of-range or malformed input yields `None`
/// instead of a panic.
pub fn parse_u64(data: Option<String>) -> (r: Option<u64>)
    ensures
        data is None ==> r is None,
        data matches Some(s) ==> {
            let ok = s@.len() > 0 && all_digit_chars(s@) && chars_value(s@) <= u64::MAX;
            &&& r is Some <==> ok
            &&& ok ==> r == Some((chars_value(s@) as u64))
        },
{
    let s = match data {
        Option::None => {
            return Option::None;
        },
        Option::Some(s) => s,
    };
    let n = s.as_str().unicode_len();
    if n == 0 {
        return Option::None;
    }
    let mut acc: u64 = 0;
    let mut i: usize = 0;
    while i < n
        invariant
            data == Some(s),
            0 <= i <= n,
            n == s@.len(),
            n > 0,
            all_digit_chars(s@.subrange(0, i as int)),
            acc == chars_value(s@.subrange(0, i as int)),
        decreases n - i,
    {
        let c = s.as_str().get_char(i);
        let cv = c as u32;
        if cv < 48 || cv > 57 {
            proof {
                assert(!is_digit_char(s@[i as int]));
            }
            return Option::None;
        }
        let d = (cv - 48) as u64;
        if acc > (u64::MAX - d) / 10 {
            proof {
                let p = s@.subrange(0, i as int);
                let q = s@.subrange(0, i + 1 as int);
                assert(q.drop_last() =~= p);
                assert(chars_value(q) == acc * 10 + d);
                assert(acc * 10 + d > u64::MAX) by (nonlinear_arith)
                    requires
                        acc > (u64::MAX - d) / 10,
                        d <= 9,
                ;
                if all_digit_chars(s@) {
                    lemma_chars_value_monotone(s@, i + 1, n as int);
                    assert(s@.subrange(0, n as int) =~= s@);
                    assert(chars_value(s@) > u64::MAX);
                }
            }
            return Option::None;
        }
        proof {
            let p = s@.subrange(0, i as int);
            let q = s@.subrange(0, i + 1 as int);
            assert(q.drop_last() =~= p);
            assert(acc * 10 + d <= u64::MAX) by (nonlinear_arith)
                requires
                    acc <= (u64::MAX - d) / 10,
                    d <= 9,
            ;
        }
        acc = acc * 10 + d;
        i = i + 1;
    }
    proof {
        assert(s@.subrange(0, n as int) =~= s@);
    }
    Option::Some(acc)
}

/// Relies on `String::push`: appends the given character to the end of the
/// string.
#[verifier::external_body]
pub(crate) fn push_char(s: &mut String, c: char)
    ensures
        final(s)@ == old(s)@.push(c),
{
    s.push(c);
}

/// `true` when `prefix` is a prefix of `s`.
pub fn starts_with(s: &String, prefix: &String) -> (r: bool)
    ensures
        r == prefix@.is_prefix_of(s@),
{
    let n = prefix.as_str().unicode_len();
    let m = s.as_str().unicode_len();
    if n > m {
        return false;
    }
    let mut i: usize = 0;
    while i < n
        invariant
            0 <= i <= n <= m,
            n == prefix@.len(),
            m == s@.len(),
            forall|j: int| 0 <= j < i ==> s@[j] == prefix@[j],
        decreases n - i,
    {
        if s.as_str().get_char(i) != prefix.as_str().get_char(i) {
            return false;
        }
        i = i + 1;
    }
    proof {
        assert(s@.subrange(0, n as int) =~= prefix@);
    }
    true
}

/// The suffix of `s` that follows `prefix`.
pub fn strip_prefix(s: &String, prefix: &String) -> (r: String)
    requires
        prefix@.is_prefix_of(s@),
    ensures
        r@ == s@.skip(prefix@.len() as int),
{
    let n = prefix.as_str().unicode_len();
    let m = s.as_str().unicode_len();
    String::from_str(s.as_str().substring_char(n, m))
}

/// Concatenation of two strings.
pub fn concat_str(a: &String, b: &String) -> (r: String)
    ensures
        r@ == a@ + b@,
{
    let mut r = String::from_str(a.as_str());
    r.append(b.as_str());
    r
}

/// The sequence with every backslash replaced by a forward slash.
pub open spec fn slashed(s: Seq<char>) -> Seq<char> {
    s.map(|i: int, c: char| if c == '\\' { '/' } else { c })
}

/// Convert backslashes to slashes, so that every path the room stores is
/// slash-normalized.
pub fn to_slash(path: &String) -> (r: String)
    ensures
        r@ == slashed(path@),
{
    let n = path.as_str().unicode_len();
    let mut out = String::new();
    let mut i: usize = 0;
    while i < n
        invariant
            0 <= i <= n,
            n == path@.len(),
            out@.len() == i,
            forall|j: int| 0 <= j < i ==> out@[j] == (if path@[j] == '\\' { '/' } else { path@[j] }),
        decreases n - i,
    {
        let c = path.as_str().get_char(i);
        if c == '\\' {
            push_char(&mut out, '/');
        } else {
            push_char(&mut out, c);
        }
        i = i + 1;
    }
    proof {
        assert(out@ =~= slashed(path@));
    }
    out
}

/// Line-ending normalization: `\r\n` and a lone `\r` both become `\n`.
pub open spec fn norm_le_spec(s: Seq<char>) -> Seq<char>
    decreases s.len(),
{
    if s.len() == 0 {
        Seq::empty()
    } else if s[0] == '\r' && s.len() >= 2 && s[1] == '\n' {
        seq!['\n'] + norm_le_spec(s.skip(2))
    } else if s[0] == '\r' {
        seq!['\n'] + norm_le_spec(s.skip(1))
    } else {
        seq![s[0]] + norm_le_spec(s.skip(1))
    }
}

/// Relies on `normalize_line_endings::normalized`: rewrites every `\r\n`
/// pair and every lone `\r` of the character stream to `\n`.
#[verifier::external_body]
fn normalized_lf(s: &str) -> (r: String)
    ensures
        r@ == norm_le_spec(s@),
{
    String::from_iter(normalize_line_endings::normalized(s.chars()))
}

/// Normalize the line endings of a string to LF.
pub fn normalize_le(string: &String) -> (r: String)
    ensures
        r@ == norm_le_spec(string@),
{
    normalized_lf(string.as_str())
}


/// `true` when the string equals the given slice, character for character.
pub fn str_eq(a: &String, b: &str) -> (r: bool)
    ensures
        r == (a@ == b@),
{
    let n = a.as_str().unicode_len();
    let m = b.unicode_len();
    if n != m {
        return false;
    }
    let mut i: usize = 0;
    while i < n
        invariant
            0 <= i <= n,
            n == a@.len(),
            n == b@.len(),
            forall|j: int| 0 <= j < i ==> a@[j] == b@[j],
        decreases n - i,
    {
        if a.as_str().get_char(i) != b.get_char(i) {
            return false;
        }
        i = i + 1;
    }
    proof {
        assert(a@ =~= b@);
    }
    true
}


/// A copy of a vector of addresses.
pub fn copy_u64s(v: &Vec<u64>) -> (r: Vec<u64>)
    ensures
        r@ == v@,
{
    let n = v.len();
    let mut r: Vec<u64> = Vec::new();
    let mut i: usize = 0;
    while i < n
        invariant
            0 <= i <= n,
            n == v@.len(),
            r@ == v@.subrange(0, i as int),
        decreases n - i,
    {
        r.push(v[i]);
        proof {
            assert(r@ =~= v@.subrange(0, i + 1 as int));
        }
        i = i + 1;
    }
    proof {
        assert(v@.subrange(0, n as int) =~= v@);
    }
    r
}


} // verus!
