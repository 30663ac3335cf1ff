//! Character-level helpers shared by the parsers and formatters of the crate.
//!
//! Text is processed as `Vec<char>`, whose view is the same `Seq<char>` that
//! vstd gives `String` and `&str`.
use vstd::prelude::*;

verus! {

// ---------------------------------------------------------------------------
// Character classes (ASCII and Unicode White_Space)
// ---------------------------------------------------------------------------

pub open spec fn is_ascii_lower(c: char) -> bool {
    'a' <= c && c <= 'z'
}

pub open spec fn is_ascii_upper(c: char) -> bool {
    'A' <= c && c <= 'Z'
}

pub open spec fn is_ascii_digit(c: char) -> bool {
    '0' <= c && c <= '9'
}

pub open spec fn is_ascii_alnum(c: char) -> bool {
    is_ascii_lower(c) || is_ascii_upper(c) || is_ascii_digit(c)
}

/// `char::to_ascii_uppercase`.
pub open spec fn upper_char(c: char) -> char {
    if is_ascii_lower(c) {
        ((c as u32) - 32) as char
    } else {
        c
    }
}

/// `char::to_ascii_lowercase`.
pub open spec fn lower_char(c: char) -> char {
    if is_ascii_upper(c) {
        ((c as u32) + 32) as char
    } else {
        c
    }
}

pub open spec fn upper_seq(s: Seq<char>) -> Seq<char> {
    s.map_values(|c: char| upper_char(c))
}

pub open spec fn lower_seq(s: Seq<char>) -> Seq<char> {
    s.map_values(|c: char| lower_char(c))
}

/// `char::is_whitespace`: the Unicode White_Space property.
pub open spec fn is_whitespace(c: char) -> bool {
    ||| '\t' <= c && c <= '\r'
    ||| c == ' '
    ||| c == '\u{85}'
    ||| c == '\u{a0}'
    ||| c == '\u{1680}'
    ||| '\u{2000}' <= c && c <= '\u{200a}'
    ||| c == '\u{2028}'
    ||| c == '\u{2029}'
    ||| c == '\u{202f}'
    ||| c == '\u{205f}'
    ||| c == '\u{3000}'
}

pub fn char_is_whitespace(c: char) -> (b: bool)
    ensures
        b == is_whitespace(c),
{
    ('\t' <= c && c <= '\r') || c == ' ' || c == '\u{85}' || c == '\u{a0}' || c == '\u{1680}'
        || ('\u{2000}' <= c && c <= '\u{200a}') || c == '\u{2028}' || c == '\u{2029}' || c
        == '\u{202f}' || c == '\u{205f}' || c == '\u{3000}'
}

pub fn char_is_ascii_alnum(c: char) -> (b: bool)
    ensures
        b == is_ascii_alnum(c),
{
    ('a' <= c && c <= 'z') || ('A' <= c && c <= 'Z') || ('0' <= c && c <= '9')
}

pub fn char_to_upper(c: char) -> (u: char)
    ensures
        u == upper_char(c),
{
    if 'a' <= c && c <= 'z' {
        let b: u8 = (c as u8) - 32;
        b as char
    } else {
        c
    }
}

pub fn char_to_lower(c: char) -> (l: char)
    ensures
        l == lower_char(c),
{
    if 'A' <= c && c <= 'Z' {
        let b: u8 = (c as u8) + 32;
        b as char
    } else {
        c
    }
}

// ---------------------------------------------------------------------------
// Conversions between strings and character vectors
// ---------------------------------------------------------------------------

/// The characters of `s`, in order.
pub fn chars_of(s: &str) -> (out: Vec<char>)
    ensures
        out@ == s@,
{
    let mut out: Vec<char> = Vec::new();
    for c in it: s.chars()
        invariant
            out@ == it.seq().take(it.index()),
            it.seq() == s@,
    {
        out.push(c);
    }
    out
}

/// Builds a `String` that holds exactly the characters of `chars`.
#[verifier::external_body]
pub fn string_from_chars(chars: &Vec<char>) -> (s: String)
    ensures
        s@ == chars@,
{
    chars.iter().collect()
}

/// `String::from(s)`.
pub fn owned(s: &str) -> (out: String)
    ensures
        out@ == s@,
{
    let v = chars_of(s);
    string_from_chars(&v)
}

/// Appends every character of `src` to `dst`.
pub fn push_all(dst: &mut Vec<char>, src: &Vec<char>)
    ensures
        final(dst)@ == old(dst)@ + src@,
{
    let mut i: usize = 0;
    while i < src.len()
        invariant
            0 <= i <= src.len(),
            dst@ == old(dst)@ + src@.take(i as int),
        decreases src.len() - i,
    {
        dst.push(src[i]);
        i = i + 1;
        assert(src@.take(i as int) =~= src@.take(i - 1).push(src@[i - 1]));
    }
    assert(src@.take(src.len() as int) =~= src@);
}

/// Appends every character of `src` to `dst`.
pub fn push_str(dst: &mut Vec<char>, src: &str)
    ensures
        final(dst)@ == old(dst)@ + src@,
{
    let v = chars_of(src);
    push_all(dst, &v);
}

/// `a == b` on character sequences.
pub fn seq_eq(a: &Vec<char>, b: &Vec<char>) -> (r: bool)
    ensures
        r == (a@ == b@),
{
    if a.len() != b.len() {
        return false;
    }
    let mut i: usize = 0;
    while i < a.len()
        invariant
            a.len() == b.len(),
            0 <= i <= a.len(),
            forall|k: int| 0 <= k < i ==> a@[k] == b@[k],
        decreases a.len() - i,
    {
        if a[i] != b[i] {
            return false;
        }
        i = i + 1;
    }
    assert(a@ =~= b@);
    true
}

/// Whether the characters of `a` spell the literal `lit`.
pub fn eq_lit(a: &Vec<char>, lit: &str) -> (r: bool)
    ensures
        r == (a@ == lit@),
{
    let l = chars_of(lit);
    seq_eq(a, &l)
}

// ---------------------------------------------------------------------------
// Case mapping
// ---------------------------------------------------------------------------

/// `str::to_ascii_uppercase`.
pub fn to_ascii_upper(s: &Vec<char>) -> (out: Vec<char>)
    ensures
        out@ == upper_seq(s@),
{
    let mut out: Vec<char> = Vec::new();
    let mut i: usize = 0;
    while i < s.len()
        invariant
            0 <= i <= s.len(),
            out@ =~= upper_seq(s@.take(i as int)),
        decreases s.len() - i,
    {
        out.push(char_to_upper(s[i]));
        i = i + 1;
        assert(s@.take(i as int) =~= s@.take(i - 1).push(s@[i - 1]));
    }
    assert(s@.take(s.len() as int) =~= s@);
    out
}

/// `str::to_ascii_lowercase`.
pub fn to_ascii_lower(s: &Vec<char>) -> (out: Vec<char>)
    ensures
        out@ == lower_seq(s@),
{
    let mut out: Vec<char> = Vec::new();
    let mut i: usize = 0;
    while i < s.len()
        invariant
            0 <= i <= s.len(),
            out@ =~= lower_seq(s@.take(i as int)),
        decreases s.len() - i,
    {
        out.push(char_to_lower(s[i]));
        i = i + 1;
        assert(s@.take(i as int) =~= s@.take(i - 1).push(s@[i - 1]));
    }
    assert(s@.take(s.len() as int) =~= s@);
    out
}

// ---------------------------------------------------------------------------
// Trimming
// ---------------------------------------------------------------------------

/// `str::trim_start`.
pub open spec fn trim_start(s: Seq<char>) -> Seq<char>
    decreases s.len(),
{
    if s.len() > 0 && is_whitespace(s[0]) {
        trim_start(s.drop_first())
    } else {
        s
    }
}

/// `str::trim_end`.
pub open spec fn trim_end(s: Seq<char>) -> Seq<char>
    decreases s.len(),
{
    if s.len() > 0 && is_whitespace(s.last()) {
        trim_end(s.drop_last())
    } else {
        s
    }
}

/// `str::trim`: leading and trailing Unicode white space removed.
pub open spec fn trim(s: Seq<char>) -> Seq<char> {
    trim_end(trim_start(s))
}

/// `str::trim`.
pub fn trim_chars(s: &Vec<char>) -> (out: Vec<char>)
    ensures
        out@ == trim(s@),
{
    let n = s.len();
    let mut i: usize = 0;
    assert(s@.subrange(0, n as int) =~= s@);
    while i < n && char_is_whitespace(s[i])
        invariant
            n == s.len(),
            0 <= i <= n,
            trim_start(s@) == trim_start(s@.subrange(i as int, n as int)),
        decreases n - i,
    {
        assert(s@.subrange(i as int, n as int).drop_first() =~= s@.subrange(i + 1, n as int));
        i = i + 1;
    }
    assert(trim_start(s@) == s@.subrange(i as int, n as int));
    let mut j: usize = n;
    while j > i && char_is_whitespace(s[j - 1])
        invariant
            n == s.len(),
            0 <= i <= j <= n,
            trim(s@) == trim_end(s@.subrange(i as int, j as int)),
        decreases j,
    {
        assert(s@.subrange(i as int, j as int).drop_last() =~= s@.subrange(i as int, j - 1));
        j = j - 1;
    }
    let mut out: Vec<char> = Vec::new();
    let mut k: usize = i;
    while k < j
        invariant
            i <= k <= j <= n,
            n == s.len(),
            out@ =~= s@.subrange(i as int, k as int),
        decreases j - k,
    {
        out.push(s[k]);
        k = k + 1;
    }
    out
}

// ---------------------------------------------------------------------------
// Searching
// ---------------------------------------------------------------------------

/// `needle` occurs in `hay` starting at index `i`.
pub open spec fn occurs_at(hay: Seq<char>, needle: Seq<char>, i: int) -> bool {
    0 <= i && i + needle.len() <= hay.len() && hay.subrange(i, i + needle.len()) == needle
}

/// `str::contains` with a string pattern.
pub open spec fn contains_seq(hay: Seq<char>, needle: Seq<char>) -> bool {
    exists|i: int| occurs_at(hay, needle, i)
}

/// `str::starts_with` with a string pattern.
pub open spec fn starts_with(s: Seq<char>, prefix: Seq<char>) -> bool {
    occurs_at(s, prefix, 0)
}

/// `str::contains` with a character pattern.
pub open spec fn contains_char(s: Seq<char>, c: char) -> bool {
    exists|i: int| 0 <= i < s.len() && s[i] == c
}

/// Whether `needle` occurs in `hay` at index `i`.
pub fn occurs_at_exec(hay: &Vec<char>, needle: &Vec<char>, i: usize) -> (r: bool)
    ensures
        r == occurs_at(hay@, needle@, i as int),
{
    if i > hay.len() || needle.len() > hay.len() - i {
        return false;
    }
    let mut k: usize = 0;
    while k < needle.len()
        invariant
            i + needle.len() <= hay.len(),
            0 <= k <= needle.len(),
            forall|m: int| 0 <= m < k ==> hay@[i + m] == needle@[m],
        decreases needle.len() - k,
    {
        if hay[i + k] != needle[k] {
            assert(hay@.subrange(i as int, i + needle.len())[k as int] != needle@[k as int]);
            return false;
        }
        k = k + 1;
    }
    assert(hay@.subrange(i as int, i + needle.len()) =~= needle@);
    true
}

/// `str::contains` with a string pattern.
pub fn contains_exec(hay: &Vec<char>, needle: &Vec<char>) -> (r: bool)
    ensures
        r == contains_seq(hay@, needle@),
{
    if needle.len() > hay.len() {
        return false;
    }
    if needle.len() == 0 {
        assert(hay@.subrange(0, 0) =~= needle@);
        assert(occurs_at(hay@, needle@, 0));
        return true;
    }
    let mut i: usize = 0;
    while i <= hay.len() - needle.len()
        invariant
            1 <= needle.len() <= hay.len(),
            0 <= i <= hay.len() - needle.len() + 1,
            forall|m: int| 0 <= m < i ==> !occurs_at(hay@, needle@, m),
        decreases hay.len() - needle.len() + 1 - i,
    {
        if occurs_at_exec(hay, needle, i) {
            return true;
        }
        i = i + 1;
    }
    false
}

/// `str::contains` with a character pattern.
pub fn contains_char_exec(s: &Vec<char>, c: char) -> (r: bool)
    ensures
        r == contains_char(s@, c),
{
    let mut i: usize = 0;
    while i < s.len()
        invariant
            0 <= i <= s.len(),
            forall|m: int| 0 <= m < i ==> s@[m] != c,
        decreases s.len() - i,
    {
        if s[i] == c {
            return true;
        }
        i = i + 1;
    }
    false
}

// ---------------------------------------------------------------------------
// Decimal numbers
// ---------------------------------------------------------------------------

pub open spec fn digit_char(d: nat) -> char {
    ((d + 48) as u32) as char
}

/// The decimal rendering of `n` (`ToString` on an unsigned integer).
pub open spec fn decimal(n: nat) -> Seq<char>
    decreases n,
{
    if n < 10 {
        seq![digit_char(n)]
    } else {
        decimal(n / 10).push(digit_char(n % 10))
    }
}

/// The decimal rendering of a signed integer (`ToString` on `i64`).
pub open spec fn signed_decimal(n: int) -> Seq<char> {
    if n < 0 {
        seq!['-'] + decimal((-n) as nat)
    } else {
        decimal(n as nat)
    }
}

/// `n.to_string()` as characters.
pub fn decimal_u64(n: u64) -> (out: Vec<char>)
    ensures
        out@ == decimal(n as nat),
    decreases n,
{
    let d: u8 = (n % 10) as u8;
    let c: char = (d + 48) as char;
    if n < 10 {
        let mut out: Vec<char> = Vec::new();
        out.push(c);
        out
    } else {
        let mut out = decimal_u64(n / 10);
        out.push(c);
        out
    }
}

/// `n.to_string()` as characters.
pub fn decimal_i64(n: i64) -> (out: Vec<char>)
    ensures
        out@ == signed_decimal(n as int),
{
    if n < 0 {
        let m: u64 = ((-(n + 1)) as u64) + 1;
        let digits = decimal_u64(m);
        let mut out: Vec<char> = Vec::new();
        out.push('-');
        push_all(&mut out, &digits);
        out
    } else {
        decimal_u64(n as u64)
    }
}

pub open spec fn all_digits(s: Seq<char>) -> bool {
    forall|i: int| 0 <= i < s.len() ==> is_ascii_digit(#[trigger] s[i])
}

/// The value of a string of decimal digits.
pub open spec fn digits_value(s: Seq<char>) -> nat
    decreases s.len(),
{
    if s.len() == 0 {
        0
    } else {
        digits_value(s.drop_last()) * 10 + ((s.last() as nat) - 48) as nat
    }
}

/// `<uN as FromStr>::from_str` for a type whose largest value is `max`:
/// an optional `+`, then one or more ASCII digits whose value is at most `max`.
pub open spec fn parse_unsigned(s: Seq<char>, max: nat) -> Option<nat> {
    let d = if s.len() > 0 && s[0] == '+' {
        s.drop_first()
    } else {
        s
    };
    if d.len() > 0 && all_digits(d) && digits_value(d) <= max {
        Some(digits_value(d))
    } else {
        None
    }
}

/// `<i64 as FromStr>::from_str`: an optional sign, then one or more ASCII digits
/// whose signed value lies in the range of `i64`.
pub open spec fn parse_i64_spec(s: Seq<char>) -> Option<int> {
    if s.len() > 0 && s[0] == '-' {
        let d = s.drop_first();
        if d.len() > 0 && all_digits(d) && digits_value(d) <= 0x8000_0000_0000_0000 {
            Some(-digits_value(d))
        } else {
            None
        }
    } else {
        match parse_unsigned(s, 0x7fff_ffff_ffff_ffff) {
            Some(v) => Some(v as int),
            None => None,
        }
    }
}

proof fn lemma_digits_value_prefix(s: Seq<char>, k: int)
    requires
        0 <= k <= s.len(),
        all_digits(s),
    ensures
        digits_value(s.take(k)) <= digits_value(s),
    decreases s.len(),
{
    if k < s.len() {
        assert(all_digits(s.drop_last()));
        assert(s.drop_last().take(k) =~= s.take(k));
        lemma_digits_value_prefix(s.drop_last(), k);
        assert(digits_value(s.drop_last()) <= digits_value(s)) by (nonlinear_arith)
            requires
                digits_value(s) == digits_value(s.drop_last()) * 10 + ((s.last() as nat) - 48) as nat,
        ;
    } else {
        assert(s.take(k) =~= s);
    }
}

/// The value of the digits `s[start..]` when they are all digits and the value is at
/// most `max`.
fn digits_at_most(s: &Vec<char>, start: usize, max: u64) -> (r: Option<u64>)
    requires
        start <= s.len(),
    ensures
        r matches Some(v) ==> {
            let d = s@.subrange(start as int, s.len() as int);
            all_digits(d) && digits_value(d) == v && v <= max
        },
        r is None ==> {
            let d = s@.subrange(start as int, s.len() as int);
            !(all_digits(d) && digits_value(d) <= max)
        },
{
    let ghost d = s@.subrange(start as int, s.len() as int);
    let mut acc: u64 = 0;
    let mut i: usize = start;
    while i < s.len()
        invariant
            start <= i <= s.len(),
            d == s@.subrange(start as int, s.len() as int),
            all_digits(d.take(i - start)),
            digits_value(d.take(i - start)) == acc,
            acc <= max,
        decreases s.len() - i,
    {
        let c = s[i];
        if !('0' <= c && c <= '9') {
            assert(d[i - start] == c);
            assert(!all_digits(d));
            return None;
        }
        let digit: u64 = ((c as u32) - 48) as u64;
        assert(d.take(i + 1 - start).drop_last() =~= d.take(i - start));
        assert(d.take(i + 1 - start).last() == c);
        if digit > max || acc > (max - digit) / 10 {
            assert(all_digits(d.take(i + 1 - start)));
            assert(digits_value(d.take(i + 1 - start)) > max) by (nonlinear_arith)
                requires
                    digit > max || acc > (max - digit) / 10,
                    digits_value(d.take(i + 1 - start)) == acc * 10 + digit,
                    digit <= 9,
            ;
            proof {
                if all_digits(d) {
                    lemma_digits_value_prefix(d, (i + 1 - start) as int);
                }
            }
            return None;
        }
        assert(acc * 10 + digit <= max) by (nonlinear_arith)
            requires
                digit <= max,
                acc <= (max - digit) / 10,
                digit <= 9,
        ;
        acc = acc * 10 + digit;
        i = i + 1;
    }
    assert(d.take(i - start) =~= d);
    Some(acc)
}

/// `<uN as FromStr>::from_str` for a type whose largest value is `max`.
pub fn parse_unsigned_exec(s: &Vec<char>, max: u64) -> (r: Option<u64>)
    ensures
        r matches Some(v) ==> parse_unsigned(s@, max as nat) == Some(v as nat),
        r is None ==> parse_unsigned(s@, max as nat) is None,
{
    let start: usize = if s.len() > 0 && s[0] == '+' {
        1
    } else {
        0
    };
    if start == s.len() {
        return None;
    }
    proof {
        if start == 1 {
            assert(s@.drop_first() =~= s@.subrange(1, s.len() as int));
        } else {
            assert(s@ =~= s@.subrange(0, s.len() as int));
        }
    }
    digits_at_most(s, start, max)
}

/// `<i64 as FromStr>::from_str`.
pub fn parse_i64(s: &Vec<char>) -> (r: Option<i64>)
    ensures
        r matches Some(v) ==> parse_i64_spec(s@) == Some(v as int),
        r is None ==> parse_i64_spec(s@) is None,
{
    if s.len() > 0 && s[0] == '-' {
        if s.len() == 1 {
            return None;
        }
        assert(s@.drop_first() =~= s@.subrange(1, s.len() as int));
        match digits_at_most(s, 1, 0x8000_0000_0000_0000) {
            Some(v) => {
                if v == 0x8000_0000_0000_0000 {
                    Some(i64::MIN)
                } else {
                    Some(-(v as i64))
                }
            },
            None => None,
        }
    } else {
        match parse_unsigned_exec(s, 0x7fff_ffff_ffff_ffff) {
            Some(v) => Some(v as i64),
            None => None,
        }
    }
}

// ---------------------------------------------------------------------------
// Joining and replacing
// ---------------------------------------------------------------------------

/// `[&str]::join(sep)`.
pub open spec fn join(parts: Seq<Seq<char>>, sep: Seq<char>) -> Seq<char>
    decreases parts.len(),
{
    if parts.len() == 0 {
        Seq::empty()
    } else if parts.len() == 1 {
        parts[0]
    } else {
        join(parts.drop_last(), sep) + sep + parts.last()
    }
}

pub open spec fn views_of(v: Seq<Vec<char>>) -> Seq<Seq<char>> {
    v.map_values(|x: Vec<char>| x@)
}

pub open spec fn string_views(v: Seq<String>) -> Seq<Seq<char>> {
    v.map_values(|x: String| x@)
}

/// `parts.join(sep)`.
pub fn join_chars(parts: &Vec<Vec<char>>, sep: &str) -> (out: Vec<char>)
    ensures
        out@ == join(views_of(parts@), sep@),
{
    let sepv = chars_of(sep);
    let mut out: Vec<char> = Vec::new();
    let mut i: usize = 0;
    while i < parts.len()
        invariant
            0 <= i <= parts.len(),
            sepv@ == sep@,
            out@ == join(views_of(parts@.take(i as int)), sep@),
        decreases parts.len() - i,
    {
        let ghost before = out@;
        assert(views_of(parts@.take(i + 1)).drop_last() =~= views_of(parts@.take(i as int)));
        if i > 0 {
            push_all(&mut out, &sepv);
        } else {
            assert(views_of(parts@.take(1)) =~= seq![parts@[0]@]);
        }
        push_all(&mut out, &parts[i]);
        i = i + 1;
    }
    assert(parts@.take(parts.len() as int) =~= parts@);
    out
}

/// `parts.join(sep)` on strings.
pub fn join_strings(parts: &Vec<String>, sep: &str) -> (out: Vec<char>)
    ensures
        out@ == join(string_views(parts@), sep@),
{
    let mut chars: Vec<Vec<char>> = Vec::new();
    let mut i: usize = 0;
    while i < parts.len()
        invariant
            0 <= i <= parts.len(),
            views_of(chars@) =~= string_views(parts@.take(i as int)),
        decreases parts.len() - i,
    {
        let c = chars_of(parts[i].as_str());
        let ghost prev = chars@;
        chars.push(c);
        assert(views_of(chars@) =~= views_of(prev).push(parts@[i as int]@));
        assert(parts@.take(i + 1) =~= parts@.take(i as int).push(parts@[i as int]));
        assert(string_views(parts@.take(i + 1)) =~= string_views(parts@.take(i as int)).push(parts@[i as int]@));
        i = i + 1;
    }
    assert(parts@.take(parts.len() as int) =~= parts@);
    join_chars(&chars, sep)
}

/// `s.replace(pat, rep)` for a non-empty pattern: every non-overlapping
/// occurrence, scanning from the left, is replaced.
pub open spec fn replace_all(s: Seq<char>, pat: Seq<char>, rep: Seq<char>) -> Seq<char>
    decreases s.len(),
{
    if pat.len() == 0 || s.len() == 0 {
        s
    } else if pat.len() <= s.len() && s.take(pat.len() as int) == pat {
        rep + replace_all(s.skip(pat.len() as int), pat, rep)
    } else {
        seq![s[0]] + replace_all(s.drop_first(), pat, rep)
    }
}

/// `s.replace(pat, rep)`.
pub fn replace_chars(s: &Vec<char>, pat: &Vec<char>, rep: &Vec<char>) -> (out: Vec<char>)
    requires
        pat.len() > 0,
    ensures
        out@ == replace_all(s@, pat@, rep@),
{
    let mut out: Vec<char> = Vec::new();
    let mut i: usize = 0;
    assert(s@.skip(0) =~= s@);
    assert(out@ + s@ =~= s@);
    while i < s.len()
        invariant
            0 <= i <= s.len(),
            pat.len() > 0,
            out@ + replace_all(s@.skip(i as int), pat@, rep@) == replace_all(s@, pat@, rep@),
        decreases s.len() - i,
    {
        let ghost rest = s@.skip(i as int);
        if occurs_at_exec(s, pat, i) {
            assert(rest.take(pat.len() as int) =~= s@.subrange(i as int, i + pat.len()));
            assert(rest.skip(pat.len() as int) =~= s@.skip(i + pat.len()));
            push_all(&mut out, rep);
            i = i + pat.len();
            assert(out@ + replace_all(s@.skip(i as int), pat@, rep@) =~= replace_all(s@, pat@, rep@));
        } else {
            assert(!(pat.len() <= rest.len() && rest.take(pat.len() as int) == pat@)) by {
                if pat.len() <= rest.len() && rest.take(pat.len() as int) == pat@ {
                    assert(rest.take(pat.len() as int) =~= s@.subrange(i as int, i + pat.len()));
                }
            }
            assert(rest.drop_first() =~= s@.skip(i + 1));
            out.push(s[i]);
            i = i + 1;
            assert(out@ + replace_all(s@.skip(i as int), pat@, rep@) =~= replace_all(s@, pat@, rep@));
        }
    }
    assert(s@.skip(s.len() as int) =~= Seq::<char>::empty());
    assert(out@ + Seq::<char>::empty() =~= out@);
    out
}

// ---------------------------------------------------------------------------
// Splitting on a character
// ---------------------------------------------------------------------------

/// Index of the first `c` in `s`, or `s.len()` when there is none.
pub open spec fn first_of(s: Seq<char>, c: char) -> int
    decreases s.len(),
{
    if s.len() == 0 {
        0
    } else if s[0] == c {
        0
    } else {
        1 + first_of(s.drop_first(), c)
    }
}

pub proof fn lemma_first_of(s: Seq<char>, c: char)
    ensures
        0 <= first_of(s, c) <= s.len(),
        first_of(s, c) < s.len() ==> s[first_of(s, c)] == c,
        forall|k: int| 0 <= k < first_of(s, c) ==> s[k] != c,
    decreases s.len(),
{
    if s.len() > 0 && s[0] != c {
        lemma_first_of(s.drop_first(), c);
        assert forall|k: int| 0 <= k < first_of(s, c) implies s[k] != c by {
            if k > 0 {
                assert(s[k] == s.drop_first()[k - 1]);
            }
        }
    }
}

pub proof fn lemma_first_of_is(s: Seq<char>, c: char, i: int)
    requires
        0 <= i <= s.len(),
        i < s.len() ==> s[i] == c,
        forall|k: int| 0 <= k < i ==> s[k] != c,
    ensures
        first_of(s, c) == i,
{
    lemma_first_of(s, c);
    let j = first_of(s, c);
    if j < i {
        assert(s[j] != c);
    }
    if i < j {
        assert(s[i] != c);
    }
}

/// `str::split(c)`: the pieces between the occurrences of `c`, empty ones too.
pub open spec fn split_char(s: Seq<char>, c: char) -> Seq<Seq<char>>
    decreases s.len(),
{
    let i = first_of(s, c);
    if i >= s.len() {
        seq![s]
    } else {
        proof {
            lemma_first_of(s, c);
        }
        seq![s.take(i)] + split_char(s.skip(i + 1), c)
    }
}

/// `s.split(c)`.
pub fn split_exec(s: &Vec<char>, c: char) -> (out: Vec<Vec<char>>)
    ensures
        views_of(out@) == split_char(s@, c),
{
    let mut out: Vec<Vec<char>> = Vec::new();
    let mut piece: Vec<char> = Vec::new();
    let mut start: usize = 0;
    let mut i: usize = 0;
    assert(s@.skip(0) =~= s@);
    assert(views_of(out@) + split_char(s@, c) =~= split_char(s@, c));
    while i < s.len()
        invariant
            0 <= start <= i <= s.len(),
            forall|k: int| start <= k < i ==> s@[k] != c,
            piece@ == s@.subrange(start as int, i as int),
            views_of(out@) + split_char(s@.skip(start as int), c) == split_char(s@, c),
        decreases s.len() - i,
    {
        if s[i] == c {
            let ghost t = s@.skip(start as int);
            proof {
                lemma_first_of_is(t, c, i - start);
                assert(t.take(i - start) =~= s@.subrange(start as int, i as int));
                assert(t.skip(i - start + 1) =~= s@.skip(i + 1));
            }
            let ghost prev = out@;
            out.push(piece);
            assert(views_of(out@) =~= views_of(prev).push(s@.subrange(start as int, i as int)));
            assert(views_of(out@) + split_char(s@.skip(i + 1), c) =~= split_char(s@, c));
            piece = Vec::new();
            start = i + 1;
        } else {
            piece.push(s[i]);
        }
        i = i + 1;
        assert(piece@ =~= s@.subrange(start as int, i as int));
    }
    let ghost t = s@.skip(start as int);
    proof {
        lemma_first_of_is(t, c, t.len() as int);
        assert(piece@ =~= t);
    }
    let ghost prev = out@;
    out.push(piece);
    assert(views_of(out@) =~= views_of(prev).push(t));
    assert(views_of(out@) =~= split_char(s@, c));
    out
}

// ---------------------------------------------------------------------------
// Facts about splitting, joining, trimming and upper-casing
// ---------------------------------------------------------------------------

/// A string without `c` splits into itself.
pub proof fn lemma_split_without(s: Seq<char>, c: char)
    requires
        !contains_char(s, c),
    ensures
        split_char(s, c) == seq![s],
{
    lemma_first_of_is(s, c, s.len() as int);
}

/// Splitting `a`, `c`, `b` where `a` holds no `c`.
pub proof fn lemma_split_at_first(a: Seq<char>, b: Seq<char>, c: char)
    requires
        !contains_char(a, c),
    ensures
        split_char(a + seq![c] + b, c) == seq![a] + split_char(b, c),
{
    let s = a + seq![c] + b;
    assert forall|k: int| 0 <= k < a.len() implies s[k] != c by {
        assert(s[k] == a[k]);
    }
    assert(s[a.len() as int] == c);
    lemma_first_of_is(s, c, a.len() as int);
    assert(s.take(a.len() as int) =~= a);
    assert(s.skip(a.len() as int + 1) =~= b);
}

/// `join` peels off its first part.
pub proof fn lemma_join_first(p: Seq<char>, rest: Seq<Seq<char>>, sep: Seq<char>)
    requires
        rest.len() > 0,
    ensures
        join(seq![p] + rest, sep) == p + sep + join(rest, sep),
    decreases rest.len(),
{
    let all = seq![p] + rest;
    if rest.len() == 1 {
        assert(all.drop_last() =~= seq![p]);
        assert(all.last() == rest[0]);
        assert(join(seq![p], sep) == p);
        assert(join(all, sep) == join(all.drop_last(), sep) + sep + all.last());
    } else {
        lemma_join_first(p, rest.drop_last(), sep);
        assert(all.drop_last() =~= seq![p] + rest.drop_last());
        assert(all.last() == rest.last());
        assert(join(all, sep) == join(all.drop_last(), sep) + sep + all.last());
        assert(join(rest, sep) == join(rest.drop_last(), sep) + sep + rest.last());
        assert(p + sep + join(rest.drop_last(), sep) + sep + rest.last() =~= p + sep + (join(
            rest.drop_last(),
            sep,
        ) + sep + rest.last()));
    }
}

/// Splitting a join on a separator that no part holds gives the parts back.
pub proof fn lemma_split_join(parts: Seq<Seq<char>>, c: char)
    requires
        parts.len() > 0,
        forall|i: int| 0 <= i < parts.len() ==> !contains_char(#[trigger] parts[i], c),
    ensures
        split_char(join(parts, seq![c]), c) == parts,
    decreases parts.len(),
{
    if parts.len() == 1 {
        assert(!contains_char(parts[0], c));
        lemma_split_without(parts[0], c);
        assert(seq![parts[0]] =~= parts);
    } else {
        let rest = parts.drop_first();
        assert(parts =~= seq![parts[0]] + rest);
        assert forall|i: int| 0 <= i < rest.len() implies !contains_char(#[trigger] rest[i], c) by {
            assert(rest[i] == parts[i + 1]);
        }
        lemma_split_join(rest, c);
        lemma_join_first(parts[0], rest, seq![c]);
        assert(!contains_char(parts[0], c));
        lemma_split_at_first(parts[0], join(rest, seq![c]), c);
    }
}

/// No piece of a split holds the separator.
pub proof fn lemma_split_pieces(s: Seq<char>, c: char)
    ensures
        forall|i: int|
            0 <= i < split_char(s, c).len() ==> !contains_char(#[trigger] split_char(s, c)[i], c),
    decreases s.len(),
{
    lemma_first_of(s, c);
    let i = first_of(s, c);
    if i < s.len() {
        lemma_split_pieces(s.skip(i + 1), c);
        let pieces = split_char(s, c);
        assert(pieces == seq![s.take(i)] + split_char(s.skip(i + 1), c));
        assert forall|j: int| 0 <= j < pieces.len() implies !contains_char(#[trigger] pieces[j], c) by {
            if j == 0 {
                assert forall|k: int| 0 <= k < s.take(i).len() implies s.take(i)[k] != c by {
                    assert(s.take(i)[k] == s[k]);
                }
            } else {
                assert(pieces[j] == split_char(s.skip(i + 1), c)[j - 1]);
            }
        }
    }
}

/// `trim_start` drops a prefix.
pub proof fn lemma_trim_start_skip(s: Seq<char>) -> (a: int)
    ensures
        0 <= a <= s.len(),
        trim_start(s) == s.skip(a),
    decreases s.len(),
{
    if s.len() > 0 && is_whitespace(s[0]) {
        let a = lemma_trim_start_skip(s.drop_first());
        assert(s.drop_first().skip(a) =~= s.skip(a + 1));
        a + 1
    } else {
        assert(s.skip(0) =~= s);
        0
    }
}

/// `trim_end` keeps a prefix.
pub proof fn lemma_trim_end_take(s: Seq<char>) -> (b: int)
    ensures
        0 <= b <= s.len(),
        trim_end(s) == s.take(b),
    decreases s.len(),
{
    if s.len() > 0 && is_whitespace(s.last()) {
        let b = lemma_trim_end_take(s.drop_last());
        assert(s.drop_last().take(b) =~= s.take(b));
        b
    } else {
        assert(s.take(s.len() as int) =~= s);
        s.len() as int
    }
}

/// Trimming adds no character.
pub proof fn lemma_trim_keeps_absent(s: Seq<char>, c: char)
    requires
        !contains_char(s, c),
    ensures
        !contains_char(trim(s), c),
{
    let a = lemma_trim_start_skip(s);
    let b = lemma_trim_end_take(s.skip(a));
    assert forall|k: int| 0 <= k < trim(s).len() implies trim(s)[k] != c by {
        assert(trim(s)[k] == s[a + k]);
    }
}

/// A string that starts and ends with a character that is not white space
/// is its own trim.
pub proof fn lemma_trim_fixed(s: Seq<char>)
    requires
        s.len() > 0,
        !is_whitespace(s[0]),
        !is_whitespace(s.last()),
    ensures
        trim(s) == s,
{
    assert(trim_start(s) == s);
}

pub proof fn lemma_upper_char(c: char)
    ensures
        upper_char(c) == '+' ==> c == '+',
        upper_char(upper_char(c)) == upper_char(c),
        is_whitespace(upper_char(c)) ==> is_whitespace(c),
{
    if is_ascii_lower(c) {
        let u = ((c as u32) - 32) as char;
        assert('A' as u32 <= (c as u32) - 32 <= 'Z' as u32);
        assert(u as u32 == (c as u32) - 32);
    }
}

/// Upper-casing adds no `+` and is idempotent.
pub proof fn lemma_upper_seq(s: Seq<char>)
    ensures
        !contains_char(s, '+') ==> !contains_char(upper_seq(s), '+'),
        upper_seq(upper_seq(s)) == upper_seq(s),
{
    assert forall|k: int| 0 <= k < s.len() implies upper_char(upper_char(s[k])) == upper_char(s[k])
        && (upper_char(s[k]) == '+' ==> s[k] == '+') by {
        lemma_upper_char(s[k]);
    }
    assert(upper_seq(upper_seq(s)) =~= upper_seq(s));
    if !contains_char(s, '+') {
        assert forall|k: int| 0 <= k < upper_seq(s).len() implies upper_seq(s)[k] != '+' by {
            assert(s[k] != '+');
        }
    }
}

} // verus!
