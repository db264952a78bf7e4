//! Text scanning primitives for the header grammar: whitespace tokenization,
//! character classes, and integer parsing, each pinned down by a spec
//! function over the character sequence.

use vstd::prelude::*;

verus! {

/// Whitespace, for splitting header lines into tokens.
pub open spec fn is_space(c: char) -> bool {
    c == ' ' || c == '\t' || c == '\r' || c == '\n'
}

/// A decimal digit.
pub open spec fn is_digit(c: char) -> bool {
    48 <= c as u32 <= 57
}

/// The numeric value of a digit.
pub open spec fn digit_val(c: char) -> int {
    c as u32 - 48
}

/// A character allowed in a record name: an ASCII letter, a digit or an
/// underscore.
pub open spec fn is_name_char(c: char) -> bool {
    (65 <= c as u32 <= 90) || (97 <= c as u32 <= 122) || is_digit(c) || c == '_'
}

/// Whether `c` is whitespace.
pub fn space(c: char) -> (r: bool)
    ensures
        r == is_space(c),
{
    c == ' ' || c == '\t' || c == '\r' || c == '\n'
}

/// Whether `c` is a decimal digit.
pub fn digit(c: char) -> (r: bool)
    ensures
        r == is_digit(c),
{
    let u = c as u32;
    48 <= u && u <= 57
}

/// Whether `c` may appear in a record name.
pub fn name_char(c: char) -> (r: bool)
    ensures
        r == is_name_char(c),
{
    let u = c as u32;
    (65 <= u && u <= 90) || (97 <= u && u <= 122) || (48 <= u && u <= 57) || c == '_'
}

/// The length of the maximal non-space prefix.
pub open spec fn token_len(s: Seq<char>) -> int
    decreases s.len(),
{
    if s.len() == 0 || is_space(s[0]) {
        0
    } else {
        1 + token_len(s.skip(1))
    }
}

/// `token_len` is bounded by the length, covers only non-space characters,
/// and stops at a space or the end.
pub proof fn lemma_token_len(s: Seq<char>)
    ensures
        0 <= token_len(s) <= s.len(),
        forall|i: int| 0 <= i < token_len(s) ==> !is_space(s[i]),
        token_len(s) < s.len() ==> is_space(s[token_len(s)]),
    decreases s.len(),
{
    if s.len() > 0 && !is_space(s[0]) {
        lemma_token_len(s.skip(1));
        assert forall|i: int| 0 <= i < token_len(s) implies !is_space(s[i]) by {
            if i > 0 {
                assert(s.skip(1)[i - 1] == s[i]);
            }
        }
        if token_len(s) < s.len() {
            assert(s.skip(1)[token_len(s) - 1] == s[token_len(s)]);
        }
    }
}

/// The whitespace-separated tokens of a character sequence, in order.
pub open spec fn spec_tokens(s: Seq<char>) -> Seq<Seq<char>>
    decreases s.len(), 0int via spec_tokens_dec
{
    if s.len() == 0 {
        Seq::empty()
    } else if is_space(s[0]) {
        spec_tokens(s.skip(1))
    } else {
        seq![s.take(token_len(s))] + spec_tokens(s.skip(token_len(s)))
    }
}

#[via_fn]
proof fn spec_tokens_dec(s: Seq<char>) {
    if s.len() > 0 && !is_space(s[0]) {
        lemma_token_len(s);
    }
}

/// Splits a line into its whitespace-separated tokens.
pub fn tokenize(s: &str) -> (tokens: Vec<String>)
    ensures
        tokens.len() == spec_tokens(s@).len(),
        forall|i: int| 0 <= i < tokens.len() ==> tokens@[i]@ == spec_tokens(s@)[i],
{
    let n = s.unicode_len();
    let mut tokens: Vec<String> = Vec::new();
    let mut i: usize = 0;
    proof {
        assert(s@.skip(0) =~= s@);
        assert(tokens@.map_values(|t: String| t@) =~= Seq::<Seq<char>>::empty());
        assert(spec_tokens(s@) =~= tokens@.map_values(|t: String| t@) + spec_tokens(
            s@.skip(i as int),
        ));
    }
    while i < n
        invariant
            i <= n,
            n == s@.len(),
            spec_tokens(s@) == tokens@.map_values(|t: String| t@) + spec_tokens(s@.skip(i as int)),
        decreases n - i,
    {
        let c = s.get_char(i);
        if space(c) {
            proof {
                assert(s@.skip(i as int)[0] == s@[i as int]);
                vstd::seq_lib::lemma_seq_skip_of_skip(s@, i as int, 1int);
                assert(s@.skip(i as int).skip(1) =~= s@.skip(i as int + 1));
            }
            i = i + 1;
        } else {
            // Scan to the end of the token.
            let mut j: usize = i + 1;
            proof {
                assert(s@.skip(i as int)[0] == s@[i as int]);
                vstd::seq_lib::lemma_seq_skip_of_skip(s@, i as int, 1int);
                assert(s@.skip(i as int).skip(1) =~= s@.skip(i as int + 1));
            }
            while j < n
                invariant
                    i < j <= n,
                    n == s@.len(),
                    token_len(s@.skip(i as int)) == (j - i) + token_len(s@.skip(j as int)),
                ensures
                    i < j <= n,
                    token_len(s@.skip(i as int)) == (j - i) + token_len(s@.skip(j as int)),
                    j == n || is_space(s@[j as int]),
                decreases n - j,
            {
                let c2 = s.get_char(j);
                if space(c2) {
                    break;
                }
                proof {
                    assert(s@.skip(j as int)[0] == s@[j as int]);
                    vstd::seq_lib::lemma_seq_skip_of_skip(s@, j as int, 1int);
                    assert(s@.skip(j as int).skip(1) =~= s@.skip(j as int + 1));
                }
                j = j + 1;
            }
            proof {
                // At exit the scan stopped at a space or the end.
                if j < n {
                    assert(s@.skip(j as int)[0] == s@[j as int]);
                } else {
                    assert(s@.skip(j as int).len() == 0);
                }
                assert(token_len(s@.skip(j as int)) == 0);
                assert(token_len(s@.skip(i as int)) == j - i);
            }
            let tok = s.substring_char(i, j).to_owned();
            proof {
                let rest = s@.skip(i as int);
                assert(rest.take(j - i) =~= s@.subrange(i as int, j as int));
                vstd::seq_lib::lemma_seq_skip_of_skip(s@, i as int, (j - i) as int);
                assert(rest.skip(j - i) =~= s@.skip(j as int));
                assert(spec_tokens(rest) == seq![tok@] + spec_tokens(s@.skip(j as int)));
            }
            let ghost prev = tokens@;
            tokens.push(tok);
            proof {
                assert(tokens@.map_values(|t: String| t@) =~= prev.map_values(|t: String| t@)
                    + seq![tok@]);
            }
            i = j;
        }
    }
    proof {
        assert(spec_tokens(s@.skip(i as int)) =~= Seq::<Seq<char>>::empty());
        assert(tokens@.map_values(|t: String| t@) =~= spec_tokens(s@));
    }
    tokens
}

/// Whether two strings hold the same characters.
pub fn str_eq(a: &str, b: &str) -> (r: bool)
    ensures
        r == (a@ == b@),
{
    let n = a.unicode_len();
    if n != b.unicode_len() {
        return false;
    }
    let mut i: usize = 0;
    while i < n
        invariant
            i <= n,
            n == a@.len(),
            n == b@.len(),
            forall|k: int| 0 <= k < i ==> a@[k] == b@[k],
        decreases n - i,
    {
        if a.get_char(i) != b.get_char(i) {
            return false;
        }
        i = i + 1;
    }
    proof {
        assert(a@ =~= b@);
    }
    true
}

/// The index of the first occurrence of `c`, or the length when absent.
pub open spec fn spec_find(s: Seq<char>, c: char) -> int
    decreases s.len(),
{
    if s.len() == 0 {
        0
    } else if s[0] == c {
        0
    } else {
        1 + spec_find(s.skip(1), c)
    }
}

/// `spec_find` is bounded, points at `c` when in range, and nothing before it
/// is `c`.
pub proof fn lemma_spec_find(s: Seq<char>, c: char)
    ensures
        0 <= spec_find(s, c) <= s.len(),
        spec_find(s, c) < s.len() ==> s[spec_find(s, c)] == c,
        forall|i: int| 0 <= i < spec_find(s, c) ==> s[i] != c,
    decreases s.len(),
{
    if s.len() > 0 && s[0] != c {
        lemma_spec_find(s.skip(1), c);
        assert forall|i: int| 0 <= i < spec_find(s, c) implies s[i] != c by {
            if i > 0 {
                assert(s.skip(1)[i - 1] == s[i]);
            }
        }
        if spec_find(s, c) < s.len() {
            assert(s.skip(1)[spec_find(s, c) - 1] == s[spec_find(s, c)]);
        }
    }
}

/// Whether `c` occurs in `s`.
pub open spec fn contains_char(s: Seq<char>, c: char) -> bool {
    spec_find(s, c) < s.len()
}

/// Finds the first occurrence of `c` in `s`, as a character index.
pub fn find_char(s: &str, c: char) -> (r: usize)
    ensures
        r == spec_find(s@, c),
{
    proof {
        lemma_spec_find(s@, c);
    }
    let n = s.unicode_len();
    let mut i: usize = 0;
    proof {
        assert(s@.skip(0) =~= s@);
    }
    while i < n
        invariant
            i <= n,
            n == s@.len(),
            spec_find(s@, c) == i + spec_find(s@.skip(i as int), c),
            forall|k: int| 0 <= k < i ==> s@[k] != c,
        decreases n - i,
    {
        let ch = s.get_char(i);
        proof {
            assert(s@.skip(i as int)[0] == s@[i as int]);
            vstd::seq_lib::lemma_seq_skip_of_skip(s@, i as int, 1int);
            assert(s@.skip(i as int).skip(1) =~= s@.skip(i as int + 1));
        }
        if ch == c {
            return i;
        }
        i = i + 1;
    }
    proof {
        assert(s@.skip(i as int).len() == 0);
    }
    i
}

/// The number of occurrences of `c` in `s`.
pub open spec fn spec_count(s: Seq<char>, c: char) -> int
    decreases s.len(),
{
    if s.len() == 0 {
        0
    } else {
        (if s[0] == c {
            1int
        } else {
            0int
        }) + spec_count(s.skip(1), c)
    }
}

/// Counts the occurrences of `c` in `s`.
pub fn count_char(s: &str, c: char) -> (r: usize)
    ensures
        r == spec_count(s@, c),
        r <= s@.len(),
{
    proof {
        lemma_spec_count_bound(s@, c);
    }
    let n = s.unicode_len();
    let mut i: usize = 0;
    let mut count: usize = 0;
    proof {
        assert(s@.skip(0) =~= s@);
        lemma_spec_count_bound(s@, c);
    }
    while i < n
        invariant
            i <= n,
            count <= i,
            n == s@.len(),
            spec_count(s@, c) == count + spec_count(s@.skip(i as int), c),
            spec_count(s@.skip(i as int), c) <= n - i,
        decreases n - i,
    {
        let ch = s.get_char(i);
        proof {
            assert(s@.skip(i as int)[0] == s@[i as int]);
            vstd::seq_lib::lemma_seq_skip_of_skip(s@, i as int, 1int);
            assert(s@.skip(i as int).skip(1) =~= s@.skip(i as int + 1));
            lemma_spec_count_bound(s@.skip(i as int + 1), c);
        }
        if ch == c {
            count = count + 1;
        }
        i = i + 1;
    }
    proof {
        assert(s@.skip(i as int).len() == 0);
    }
    count
}

/// The count is bounded by the length and never negative.
pub proof fn lemma_spec_count_bound(s: Seq<char>, c: char)
    ensures
        0 <= spec_count(s, c) <= s.len(),
    decreases s.len(),
{
    if s.len() > 0 {
        lemma_spec_count_bound(s.skip(1), c);
    }
}

/// The value of a digit string, most significant first.
pub open spec fn digits_val(s: Seq<char>) -> int
    decreases s.len(),
{
    if s.len() == 0 {
        0
    } else {
        digits_val(s.drop_last()) * 10 + digit_val(s.last())
    }
}

/// Whether every character is a digit.
pub open spec fn all_digits(s: Seq<char>) -> bool {
    forall|i: int| 0 <= i < s.len() ==> is_digit(s[i])
}

/// A digit string's value is non-negative, and extending it on the right can
/// only grow it.
pub proof fn lemma_digits_val_bounds(s: Seq<char>)
    requires
        all_digits(s),
    ensures
        digits_val(s) >= 0,
        s.len() > 0 ==> digits_val(s) >= digits_val(s.drop_last()),
    decreases s.len(),
{
    if s.len() > 0 {
        assert(forall|i: int| 0 <= i < s.drop_last().len() ==> s.drop_last()[i] == s[i]);
        lemma_digits_val_bounds(s.drop_last());
        assert(is_digit(s.last()));
    }
}

/// A digit string's value is never negative (broadcast form).
pub broadcast proof fn lemma_digits_val_nonneg(s: Seq<char>)
    ensures
        all_digits(s) ==> #[trigger] digits_val(s) >= 0,
    decreases s.len(),
{
    if s.len() > 0 {
        assert(forall|i: int| 0 <= i < s.drop_last().len() ==> s.drop_last()[i] == s[i]);
        lemma_digits_val_nonneg(s.drop_last());
    }
}

/// Short digit strings have small values.
pub proof fn lemma_digits_val_width(s: Seq<char>)
    requires
        all_digits(s),
    ensures
        s.len() == 0 ==> digits_val(s) == 0,
        s.len() <= 1 ==> digits_val(s) <= 9,
        s.len() <= 2 ==> digits_val(s) <= 99,
        s.len() <= 3 ==> digits_val(s) <= 999,
        s.len() <= 4 ==> digits_val(s) <= 9999,
    decreases s.len(),
{
    if s.len() > 0 {
        assert(forall|i: int| 0 <= i < s.drop_last().len() ==> s.drop_last()[i] == s[i]);
        lemma_digits_val_width(s.drop_last());
        assert(is_digit(s.last()));
    }
}

/// Prefixes of a digit string never exceed the whole string's value.
pub proof fn lemma_digits_val_prefix(s: Seq<char>, k: int)
    requires
        all_digits(s),
        0 <= k <= s.len(),
    ensures
        digits_val(s.take(k)) <= digits_val(s),
    decreases s.len() - k,
{
    if k < s.len() {
        lemma_digits_val_prefix(s, k + 1);
        let t = s.take(k + 1);
        assert(forall|i: int| 0 <= i < t.len() ==> t[i] == s[i]);
        assert(t.drop_last() =~= s.take(k));
        assert(t.last() == s[k]);
        lemma_digits_val_bounds(t);
    } else {
        assert(s.take(k) =~= s);
    }
}

/// The unsigned integer denoted by a token: an optional `+` sign followed by
/// at least one digit. `None` when malformed.
pub open spec fn spec_parse_uint(s: Seq<char>) -> Option<int> {
    let t = if s.len() > 0 && s[0] == '+' {
        s.skip(1)
    } else {
        s
    };
    if t.len() >= 1 && all_digits(t) {
        Some(digits_val(t))
    } else {
        None
    }
}

/// The signed integer denoted by a token: an optional `+` or `-` sign
/// followed by at least one digit. `None` when malformed.
pub open spec fn spec_parse_int(s: Seq<char>) -> Option<int> {
    if s.len() > 0 && s[0] == '-' {
        let t = s.skip(1);
        if t.len() >= 1 && all_digits(t) {
            Some(-digits_val(t))
        } else {
            None
        }
    } else {
        spec_parse_uint(s)
    }
}

/// Parses the digit-only part of a token into an accumulator, reporting
/// `None` on a non-digit or when the value exceeds `u64::MAX`.
fn parse_digits(s: &str, from: usize) -> (r: Option<u64>)
    requires
        from <= s@.len(),
    ensures
        ({
            let t = s@.skip(from as int);
            match r {
                Some(v) => t.len() >= 1 && all_digits(t) && digits_val(t) == v as int,
                None => !(t.len() >= 1 && all_digits(t) && digits_val(t) <= u64::MAX),
            }
        }),
{
    let ghost t = s@.skip(from as int);
    let n = s.unicode_len();
    if from >= n {
        return None;
    }
    let mut acc: u64 = 0;
    let mut i: usize = from;
    while i < n
        invariant
            from <= i <= n,
            n == s@.len(),
            t == s@.skip(from as int),
            all_digits(t.take(i - from)),
            acc as int == digits_val(t.take(i - from)),
        decreases n - i,
    {
        let c = s.get_char(i);
        proof {
            assert(t[i - from] == s@[i as int]);
        }
        if !digit(c) {
            proof {
                assert(!is_digit(t[i - from]));
            }
            return None;
        }
        let d: u64 = (c as u32 as u64) - 48;
        let ghost prefix = t.take(i - from);
        let ghost prefix2 = t.take(i + 1 - from);
        proof {
            assert(prefix2.drop_last() =~= prefix);
            assert(prefix2.last() == t[i - from]);
            assert(forall|k: int| 0 <= k < prefix2.len() ==> prefix2[k] == t[k]);
        }
        let step = match acc.checked_mul(10) {
            Some(x) => x.checked_add(d),
            None => None,
        };
        match step {
            Some(x) => {
                acc = x;
            },
            None => {
                // The value exceeds `u64::MAX`; so does the whole token.
                proof {
                    assert(digits_val(prefix2) > u64::MAX);
                    if all_digits(t) {
                        lemma_digits_val_prefix(t, i + 1 - from);
                    }
                }
                return None;
            },
        }
        i = i + 1;
    }
    proof {
        assert(t.take(i - from) =~= t);
    }
    Some(acc)
}

/// The unsigned 64-bit integer a token denotes, or `None` when the token is
/// malformed or out of range.
pub open spec fn spec_parse_u64(s: Seq<char>) -> Option<u64> {
    match spec_parse_uint(s) {
        Some(v) => if v <= u64::MAX {
            Some(v as u64)
        } else {
            None
        },
        None => None,
    }
}

/// Parses a token as a `u64`, per `spec_parse_u64`.
pub fn parse_u64(s: &str) -> (r: Option<u64>)
    ensures
        r == spec_parse_u64(s@),
{
    broadcast use lemma_digits_val_nonneg;

    let n = s.unicode_len();
    if n == 0 {
        return None;
    }
    let c0 = s.get_char(0);
    if c0 == '+' {
        let r = parse_digits(s, 1);
        proof {
            assert(s@.skip(1) == if s@.len() > 0 && s@[0] == '+' {
                s@.skip(1)
            } else {
                s@
            });
        }
        r
    } else {
        let r = parse_digits(s, 0);
        proof {
            assert(s@.skip(0) =~= s@);
        }
        r
    }
}

/// The signed 64-bit value a token denotes: the magnitude as an `i64`, with
/// `-(2^63)` representable. `None` when malformed or out of range.
pub open spec fn spec_parse_i64(s: Seq<char>) -> Option<i64> {
    match spec_parse_int(s) {
        Some(v) => if i64::MIN <= v <= i64::MAX {
            Some(v as i64)
        } else {
            None
        },
        None => None,
    }
}

/// Parses a token as an `i64`, per `spec_parse_i64`.
pub fn parse_i64(s: &str) -> (r: Option<i64>)
    ensures
        r == spec_parse_i64(s@),
{
    broadcast use lemma_digits_val_nonneg;

    let n = s.unicode_len();
    if n == 0 {
        return None;
    }
    let c0 = s.get_char(0);
    if c0 == '-' {
        let mag = parse_digits(s, 1);
        match mag {
            Some(v) => {
                if v <= 0x8000_0000_0000_0000u64 {
                    if v == 0x8000_0000_0000_0000u64 {
                        Some(i64::MIN)
                    } else {
                        Some(-(v as i64))
                    }
                } else {
                    None
                }
            },
            None => {
                proof {
                    let t = s@.skip(1);
                    if t.len() >= 1 && all_digits(t) {
                        lemma_digits_val_bounds(t);
                    }
                }
                None
            },
        }
    } else {
        let mag = parse_u64(s);
        match mag {
            Some(v) => {
                if v <= i64::MAX as u64 {
                    Some(v as i64)
                } else {
                    None
                }
            },
            None => {
                proof {
                    let t = if s@.len() > 0 && s@[0] == '+' {
                        s@.skip(1)
                    } else {
                        s@
                    };
                    if t.len() >= 1 && all_digits(t) {
                        lemma_digits_val_bounds(t);
                    }
                }
                None
            },
        }
    }
}

/// Parses a token as a `usize`, rejecting values above `usize::MAX`.
pub fn parse_usize(s: &str) -> (r: Option<usize>)
    ensures
        ({
            let v = spec_parse_uint(s@);
            match r {
                Some(x) => v == Some(x as int),
                None => !(v matches Some(n) && 0 <= n <= usize::MAX),
            }
        }),
{
    broadcast use lemma_digits_val_nonneg;

    match parse_u64(s) {
        Some(v) => {
            if v <= usize::MAX as u64 {
                Some(v as usize)
            } else {
                None
            }
        },
        None => {
            proof {
                let t = if s@.len() > 0 && s@[0] == '+' {
                    s@.skip(1)
                } else {
                    s@
                };
                if t.len() >= 1 && all_digits(t) {
                    lemma_digits_val_bounds(t);
                }
            }
            None
        },
    }
}

/// Parses a token as a `u32`.
pub fn parse_u32(s: &str) -> (r: Option<u32>)
    ensures
        ({
            let v = spec_parse_uint(s@);
            match r {
                Some(x) => v == Some(x as int),
                None => !(v matches Some(n) && 0 <= n <= u32::MAX),
            }
        }),
{
    broadcast use lemma_digits_val_nonneg;

    match parse_u64(s) {
        Some(v) => {
            if v <= u32::MAX as u64 {
                Some(v as u32)
            } else {
                None
            }
        },
        None => {
            proof {
                let t = if s@.len() > 0 && s@[0] == '+' {
                    s@.skip(1)
                } else {
                    s@
                };
                if t.len() >= 1 && all_digits(t) {
                    lemma_digits_val_bounds(t);
                }
            }
            None
        },
    }
}

/// Parses a token as a `u16`.
pub fn parse_u16(s: &str) -> (r: Option<u16>)
    ensures
        ({
            let v = spec_parse_uint(s@);
            match r {
                Some(x) => v == Some(x as int),
                None => !(v matches Some(n) && 0 <= n <= u16::MAX),
            }
        }),
{
    match parse_u32(s) {
        Some(v) => {
            if v <= u16::MAX as u32 {
                Some(v as u16)
            } else {
                None
            }
        },
        None => None,
    }
}

/// Parses a token as a `u8`.
pub fn parse_u8(s: &str) -> (r: Option<u8>)
    ensures
        ({
            let v = spec_parse_uint(s@);
            match r {
                Some(x) => v == Some(x as int),
                None => !(v matches Some(n) && 0 <= n <= u8::MAX),
            }
        }),
{
    match parse_u32(s) {
        Some(v) => {
            if v <= u8::MAX as u32 {
                Some(v as u8)
            } else {
                None
            }
        },
        None => None,
    }
}

/// Parses a token as an `i32`.
pub fn parse_i32(s: &str) -> (r: Option<i32>)
    ensures
        ({
            let v = spec_parse_int(s@);
            match r {
                Some(x) => v == Some(x as int),
                None => !(v matches Some(n) && i32::MIN <= n <= i32::MAX),
            }
        }),
{
    match parse_i64(s) {
        Some(v) => {
            if i32::MIN as i64 <= v && v <= i32::MAX as i64 {
                Some(v as i32)
            } else {
                None
            }
        },
        None => None,
    }
}

/// Parses a token as an `i16`.
pub fn parse_i16(s: &str) -> (r: Option<i16>)
    ensures
        ({
            let v = spec_parse_int(s@);
            match r {
                Some(x) => v == Some(x as int),
                None => !(v matches Some(n) && i16::MIN <= n <= i16::MAX),
            }
        }),
{
    match parse_i64(s) {
        Some(v) => {
            if i16::MIN as i64 <= v && v <= i16::MAX as i64 {
                Some(v as i16)
            } else {
                None
            }
        },
        None => None,
    }
}

/// Whether the whole token is a valid record name: non-empty, only letters,
/// digits and underscores.
pub open spec fn spec_is_name(s: Seq<char>) -> bool {
    s.len() > 0 && forall|i: int| 0 <= i < s.len() ==> is_name_char(s[i])
}

/// Checks a token against the record-name character set.
pub fn check_name(s: &str) -> (r: bool)
    ensures
        r == spec_is_name(s@),
{
    let n = s.unicode_len();
    if n == 0 {
        return false;
    }
    let mut i: usize = 0;
    while i < n
        invariant
            i <= n,
            n == s@.len(),
            forall|k: int| 0 <= k < i ==> is_name_char(s@[k]),
        decreases n - i,
    {
        let c = s.get_char(i);
        if !name_char(c) {
            return false;
        }
        i = i + 1;
    }
    true
}

} // verus!
