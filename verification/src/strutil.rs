use vstd::prelude::*;

verus! {

pub assume_specification[ std::string::String::push ](s: &mut std::string::String, c: char)
    ensures
        final(s)@ == old(s)@.push(c),
;

/// Whether two string slices hold the same characters.
pub fn str_eq(a: &str, b: &str) -> (r: bool)
    ensures
        r == (a@ == b@),
{
    let sa = a.to_owned();
    let sb = b.to_owned();
    sa == sb
}

/// The characters the formula trimmer strips: the Unicode white-space set.
pub open spec fn is_ws_char(c: char) -> bool {
    let u = c as u32;
    ||| 0x9 <= u <= 0xD
    ||| u == 0x20
    ||| u == 0x85
    ||| u == 0xA0
    ||| u == 0x1680
    ||| 0x2000 <= u <= 0x200A
    ||| u == 0x2028
    ||| u == 0x2029
    ||| u == 0x202F
    ||| u == 0x205F
    ||| u == 0x3000
}

/// Whether the character at or after i starts the non-blank part of s.
pub open spec fn ltrim_idx(s: Seq<char>, i: int) -> int
    decreases s.len() - i,
{
    if i < 0 || i >= s.len() {
        i
    } else if is_ws_char(s[i]) {
        ltrim_idx(s, i + 1)
    } else {
        i
    }
}

/// Where the non-blank part of s ends, scanning from j leftwards.
pub open spec fn rtrim_idx(s: Seq<char>, j: int) -> int
    decreases j,
{
    if j <= 0 || j > s.len() {
        j
    } else if is_ws_char(s[j - 1]) {
        rtrim_idx(s, j - 1)
    } else {
        j
    }
}

pub proof fn lemma_rtrim_le(s: Seq<char>, j: int)
    ensures
        rtrim_idx(s, j) <= j,
    decreases j,
{
    if !(j <= 0 || j > s.len()) && is_ws_char(s[j - 1]) {
        lemma_rtrim_le(s, j - 1);
    }
}

/// Trimming never lengthens a text.
pub proof fn lemma_trim_len(s: Seq<char>)
    ensures
        spec_trim(s).len() <= s.len(),
{
    lemma_rtrim_le(s, s.len() as int);
    lemma_ltrim_ge(s, 0);
}

proof fn lemma_ltrim_ge(s: Seq<char>, i: int)
    ensures
        ltrim_idx(s, i) >= i,
    decreases s.len() - i,
{
    if 0 <= i < s.len() && is_ws_char(s[i]) {
        lemma_ltrim_ge(s, i + 1);
    }
}

/// The text with its leading and trailing white-space removed.
pub open spec fn spec_trim(s: Seq<char>) -> Seq<char> {
    let a = ltrim_idx(s, 0);
    let b = rtrim_idx(s, s.len() as int);
    if a >= b {
        Seq::<char>::empty()
    } else {
        s.subrange(a, b)
    }
}

pub fn is_ws_x(c: char) -> (r: bool)
    ensures
        r == is_ws_char(c),
{
    let u = c as u32;
    (0x9 <= u && u <= 0xD) || u == 0x20 || u == 0x85 || u == 0xA0 || u == 0x1680 || (0x2000 <= u
        && u <= 0x200A) || u == 0x2028 || u == 0x2029 || u == 0x202F || u == 0x205F || u == 0x3000
}

/// The characters of the text with its surrounding white-space removed.
pub fn trimmed_chars(s: &str) -> (r: Vec<char>)
    ensures
        r@ == spec_trim(s@),
{
    let n = s.unicode_len();
    let mut chars: Vec<char> = Vec::new();
    let mut i: usize = 0;
    while i < n
        invariant
            n == s@.len(),
            i <= n,
            chars@ == s@.subrange(0, i as int),
        decreases n - i,
    {
        chars.push(s.get_char(i));
        proof {
            assert(chars@ =~= s@.subrange(0, i + 1 as int));
        }
        i = i + 1;
    }
    proof {
        assert(chars@ =~= s@);
    }
    let mut a: usize = 0;
    while a < n && is_ws_x(chars[a])
        invariant
            n == s@.len(),
            chars@ == s@,
            0 <= a <= n,
            ltrim_idx(s@, 0) == ltrim_idx(s@, a as int),
        decreases n - a,
    {
        a = a + 1;
    }
    let mut b: usize = n;
    while b > a && is_ws_x(chars[b - 1])
        invariant
            n == s@.len(),
            chars@ == s@,
            a <= b <= n,
            a == ltrim_idx(s@, 0),
            a < n ==> !is_ws_char(s@[a as int]),
            rtrim_idx(s@, n as int) == rtrim_idx(s@, b as int),
        decreases b,
    {
        b = b - 1;
    }
    let mut out: Vec<char> = Vec::new();
    let mut i: usize = a;
    while i < b
        invariant
            n == s@.len(),
            chars@ == s@,
            a <= i <= b <= n,
            out@ == s@.subrange(a as int, i as int),
        decreases b - i,
    {
        out.push(chars[i]);
        proof {
            assert(out@ =~= s@.subrange(a as int, i + 1 as int));
        }
        i = i + 1;
    }
    proof {
        if a < b {
            assert(rtrim_idx(s@, n as int) == b as int);
            assert(spec_trim(s@) == s@.subrange(a as int, b as int));
        } else {
            lemma_rtrim_le(s@, b as int);
            assert(out@ =~= Seq::<char>::empty());
        }
    }
    out
}

/// The upper-case image of a character: ASCII letters a to z map to A to Z,
/// every other character stays itself.
pub open spec fn upper_char(c: char) -> char {
    let u = c as u32;
    if 97 <= u <= 122 {
        ((u - 32) as u8) as char
    } else {
        c
    }
}

/// The upper-case image of a text, character by character.
pub open spec fn spec_upper(s: Seq<char>) -> Seq<char> {
    s.map_values(|c: char| upper_char(c))
}

pub fn upper_char_x(c: char) -> (r: char)
    ensures
        r == upper_char(c),
{
    let u = c as u32;
    if 97 <= u && u <= 122 {
        ((u - 32) as u8) as char
    } else {
        c
    }
}

/// The upper-case image of a string.
pub fn upper_x(s: &str) -> (r: String)
    ensures
        r@ == spec_upper(s@),
{
    let n = s.unicode_len();
    let mut out = String::new();
    let mut i: usize = 0;
    while i < n
        invariant
            n == s@.len(),
            i <= n,
            out@ == spec_upper(s@).subrange(0, i as int),
        decreases n - i,
    {
        out.push(upper_char_x(s.get_char(i)));
        proof {
            assert(out@ =~= spec_upper(s@).subrange(0, i + 1 as int));
        }
        i = i + 1;
    }
    proof {
        assert(out@ =~= spec_upper(s@));
    }
    out
}

pub open spec fn is_digit(c: char) -> bool {
    48 <= c as u32 <= 57
}

pub fn is_digit_x(c: char) -> (r: bool)
    ensures
        r == is_digit(c),
{
    let u = c as u32;
    48 <= u && u <= 57
}

/// After the digits of an exponent have begun: only further digits may follow.
pub open spec fn fl_digits0(s: Seq<char>, i: int) -> bool
    decreases s.len() - i,
{
    if i < 0 || i >= s.len() {
        true
    } else if is_digit(s[i]) {
        fl_digits0(s, i + 1)
    } else {
        false
    }
}

/// An exponent body: an optional sign, then at least one digit.
pub open spec fn fl_exp(s: Seq<char>, i: int) -> bool
    decreases s.len() - i,
{
    if i < 0 || i >= s.len() {
        false
    } else if s[i] == '+' || s[i] == '-' {
        i + 1 < s.len() && is_digit(s[i + 1]) && fl_digits0(s, i + 2)
    } else {
        is_digit(s[i]) && fl_digits0(s, i + 1)
    }
}

/// The mantissa scanner: digits with at most one dot, then an optional
/// exponent introduced by e or E; at least one mantissa digit is required.
pub open spec fn fl_mantissa(s: Seq<char>, i: int, seen_digit: bool, seen_dot: bool) -> bool
    decreases s.len() - i,
{
    if i < 0 || i >= s.len() {
        seen_digit
    } else if is_digit(s[i]) {
        fl_mantissa(s, i + 1, true, seen_dot)
    } else if s[i] == '.' && !seen_dot {
        fl_mantissa(s, i + 1, seen_digit, true)
    } else if (s[i] == 'e' || s[i] == 'E') && seen_digit {
        fl_exp(s, i + 1)
    } else {
        false
    }
}

/// Whether a text is one of the special floating-point words: an optional
/// sign, then inf, infinity or nan in any letter case.
pub open spec fn is_special_float(s: Seq<char>) -> bool {
    let t = if s.len() > 0 && (s[0] == '+' || s[0] == '-') {
        s.skip(1)
    } else {
        s
    };
    spec_upper(t) == "INF"@ || spec_upper(t) == "INFINITY"@ || spec_upper(t) == "NAN"@
}

/// Whether a text is one of the special floating-point words.
pub fn is_special_float_x(s: &str) -> (r: bool)
    ensures
        r == is_special_float(s@),
{
    let n = s.unicode_len();
    let mut start: usize = 0;
    if n > 0 {
        let c = s.get_char(0);
        if c == '+' || c == '-' {
            start = 1;
        }
    }
    let rest = s.substring_char(start, n);
    proof {
        if start == 1 {
            assert(rest@ =~= s@.skip(1));
        } else {
            assert(rest@ =~= s@);
        }
    }
    let up = upper_x(rest);
    str_eq(up.as_str(), "INF") || str_eq(up.as_str(), "INFINITY") || str_eq(up.as_str(), "NAN")
}

/// Whether a text reads as a floating-point literal: an optional sign, then
/// either a digit string with at most one dot, at least one digit and an
/// optional signed exponent, or one of the words inf, infinity and nan in
/// any letter case.
pub open spec fn is_float_literal(s: Seq<char>) -> bool {
    let dec = if s.len() > 0 && (s[0] == '+' || s[0] == '-') {
        fl_mantissa(s, 1, false, false)
    } else {
        fl_mantissa(s, 0, false, false)
    };
    dec || is_special_float(s)
}

fn fl_digits0_x(s: &str, n: usize, i: usize) -> (r: bool)
    requires
        n == s@.len(),
        i <= n,
    ensures
        r == fl_digits0(s@, i as int),
    decreases n - i,
{
    if i >= n {
        true
    } else if is_digit_x(s.get_char(i)) {
        fl_digits0_x(s, n, i + 1)
    } else {
        false
    }
}

fn fl_exp_x(s: &str, n: usize, i: usize) -> (r: bool)
    requires
        n == s@.len(),
        i <= n,
    ensures
        r == fl_exp(s@, i as int),
{
    if i >= n {
        false
    } else {
        let c = s.get_char(i);
        if c == '+' || c == '-' {
            if i + 1 < n && is_digit_x(s.get_char(i + 1)) {
                fl_digits0_x(s, n, i + 2)
            } else {
                false
            }
        } else {
            if is_digit_x(c) {
                fl_digits0_x(s, n, i + 1)
            } else {
                false
            }
        }
    }
}

fn fl_mantissa_x(s: &str, n: usize, i: usize, seen_digit: bool, seen_dot: bool) -> (r: bool)
    requires
        n == s@.len(),
        i <= n,
    ensures
        r == fl_mantissa(s@, i as int, seen_digit, seen_dot),
    decreases n - i,
{
    if i >= n {
        seen_digit
    } else {
        let c = s.get_char(i);
        if is_digit_x(c) {
            fl_mantissa_x(s, n, i + 1, true, seen_dot)
        } else if c == '.' && !seen_dot {
            fl_mantissa_x(s, n, i + 1, seen_digit, true)
        } else if (c == 'e' || c == 'E') && seen_digit {
            fl_exp_x(s, n, i + 1)
        } else {
            false
        }
    }
}

/// Whether a text reads as a floating-point literal.
pub fn is_float_literal_x(s: &str) -> (r: bool)
    ensures
        r == is_float_literal(s@),
{
    let n = s.unicode_len();
    let mut dec = false;
    let mut signed = false;
    if n > 0 {
        let c = s.get_char(0);
        if c == '+' || c == '-' {
            signed = true;
            dec = fl_mantissa_x(s, n, 1, false, false);
        }
    }
    if !signed {
        dec = fl_mantissa_x(s, n, 0, false, false);
    }
    dec || is_special_float_x(s)
}

} // verus!
