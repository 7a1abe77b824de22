//! Character-level building blocks of the wire grammar: whitespace, JSON
//! strings with escapes, and unsigned decimal numbers.
//!
//! Every specification function here consumes a prefix of a character
//! sequence and returns the parsed value together with the unconsumed rest;
//! the executable parsers walk a `Vec<char>` by index and are proved to agree
//! with the specification functions exactly.

use vstd::prelude::*;

verus! {

/// JSON insignificant whitespace.
pub open spec fn is_ws(c: char) -> bool {
    c == ' ' || c == '\n' || c == '\r' || c == '\t'
}

pub open spec fn is_digit(c: char) -> bool {
    '0' <= c && c <= '9'
}

/// A character a JSON string may carry unescaped: anything but a control
/// character, the quote and the backslash.
pub open spec fn is_raw_string_char(c: char) -> bool {
    c as u32 >= 0x20 && c != '"' && c != '\\'
}

/// What a backslash escape denotes; `None` for an unsupported escape.
pub open spec fn spec_unescape(c: char) -> Option<char> {
    if c == '"' {
        Some('"')
    } else if c == '\\' {
        Some('\\')
    } else if c == '/' {
        Some('/')
    } else if c == 'n' {
        Some('\n')
    } else if c == 'r' {
        Some('\r')
    } else if c == 't' {
        Some('\t')
    } else if c == 'b' {
        Some('\u{8}')
    } else if c == 'f' {
        Some('\u{c}')
    } else {
        None
    }
}

/// The rest of `s` after its leading whitespace.
pub open spec fn spec_ws(s: Seq<char>) -> Seq<char>
    decreases s.len(),
{
    if s.len() > 0 && is_ws(s[0]) {
        spec_ws(s.skip(1))
    } else {
        s
    }
}

/// The body of a JSON string after the opening quote: the decoded characters
/// seen so far are `acc`; the result is the full decoded string and the rest
/// after the closing quote.
pub open spec fn spec_str_body(s: Seq<char>, acc: Seq<char>) -> Option<(Seq<char>, Seq<char>)>
    decreases s.len(),
{
    if s.len() == 0 {
        None
    } else if s[0] == '"' {
        Some((acc, s.skip(1)))
    } else if s[0] == '\\' {
        if s.len() >= 2 {
            match spec_unescape(s[1]) {
                Some(c) => spec_str_body(s.skip(2), acc.push(c)),
                None => None,
            }
        } else {
            None
        }
    } else if is_raw_string_char(s[0]) {
        spec_str_body(s.skip(1), acc.push(s[0]))
    } else {
        None
    }
}

/// A complete JSON string, opening quote included.
pub open spec fn spec_string(s: Seq<char>) -> Option<(Seq<char>, Seq<char>)> {
    if s.len() > 0 && s[0] == '"' {
        spec_str_body(s.skip(1), Seq::empty())
    } else {
        None
    }
}

pub open spec fn digit_val(c: char) -> int {
    c as u32 - '0' as u32
}

/// Digits after the first, accumulating the value; stops at the first
/// non-digit.  A value beyond `u64::MAX` is a parse error.
pub open spec fn spec_u64_rest(s: Seq<char>, acc: u64) -> Option<(u64, Seq<char>)>
    decreases s.len(),
{
    if s.len() > 0 && is_digit(s[0]) {
        if acc * 10 + digit_val(s[0]) > u64::MAX {
            None
        } else {
            spec_u64_rest(s.skip(1), (acc * 10 + digit_val(s[0])) as u64)
        }
    } else {
        Some((acc, s))
    }
}

/// A JSON unsigned integer: at least one digit, no leading zero.
pub open spec fn spec_u64(s: Seq<char>) -> Option<(u64, Seq<char>)> {
    if s.len() == 0 || !is_digit(s[0]) {
        None
    } else if s[0] == '0' {
        if s.len() >= 2 && is_digit(s[1]) {
            None
        } else {
            Some((0, s.skip(1)))
        }
    } else {
        spec_u64_rest(s, 0)
    }
}

/// The literal `null`.
pub open spec fn spec_null(s: Seq<char>) -> Option<Seq<char>> {
    if s.len() >= 4 && s[0] == 'n' && s[1] == 'u' && s[2] == 'l' && s[3] == 'l' {
        Some(s.skip(4))
    } else {
        None
    }
}

pub proof fn lemma_skip_skip(s: Seq<char>, a: int, b: int)
    requires
        0 <= a,
        0 <= b,
        a + b <= s.len(),
    ensures
        s.skip(a).skip(b) == s.skip(a + b),
{
    assert(s.skip(a).skip(b) =~= s.skip(a + b));
}

pub proof fn lemma_ws_len(s: Seq<char>)
    ensures
        spec_ws(s).len() <= s.len(),
    decreases s.len(),
{
    if s.len() > 0 && is_ws(s[0]) {
        lemma_ws_len(s.skip(1));
    }
}

pub proof fn lemma_str_body_len(s: Seq<char>, acc: Seq<char>)
    ensures
        spec_str_body(s, acc) matches Some(p) ==> p.1.len() < s.len(),
    decreases s.len(),
{
    if s.len() == 0 {
    } else if s[0] == '"' {
    } else if s[0] == '\\' {
        if s.len() >= 2 {
            match spec_unescape(s[1]) {
                Some(c) => lemma_str_body_len(s.skip(2), acc.push(c)),
                None => {},
            }
        }
    } else if is_raw_string_char(s[0]) {
        lemma_str_body_len(s.skip(1), acc.push(s[0]));
    }
}

pub proof fn lemma_string_len(s: Seq<char>)
    ensures
        spec_string(s) matches Some(p) ==> p.1.len() + 2 <= s.len(),
{
    if s.len() > 0 && s[0] == '"' {
        lemma_str_body_len(s.skip(1), Seq::empty());
    }
}

pub proof fn lemma_u64_rest_len(s: Seq<char>, acc: u64)
    ensures
        spec_u64_rest(s, acc) matches Some(p) ==> p.1.len() <= s.len(),
        spec_u64_rest(s, acc) matches Some(p) ==> (s.len() > 0 && is_digit(s[0]) ==> p.1.len()
            < s.len()),
    decreases s.len(),
{
    if s.len() > 0 && is_digit(s[0]) {
        if !(acc * 10 + digit_val(s[0]) > u64::MAX) {
            lemma_u64_rest_len(s.skip(1), (acc * 10 + digit_val(s[0])) as u64);
        }
    }
}

pub proof fn lemma_u64_len(s: Seq<char>)
    ensures
        spec_u64(s) matches Some(p) ==> p.1.len() < s.len(),
{
    if s.len() > 0 && is_digit(s[0]) && s[0] != '0' {
        lemma_u64_rest_len(s, 0);
    }
}

fn ws_exec(c: char) -> (r: bool)
    ensures
        r == is_ws(c),
{
    c == ' ' || c == '\n' || c == '\r' || c == '\t'
}

fn digit_exec(c: char) -> (r: bool)
    ensures
        r == is_digit(c),
{
    '0' <= c && c <= '9'
}

fn unescape_exec(c: char) -> (r: Option<char>)
    ensures
        r == spec_unescape(c),
{
    if c == '"' {
        Some('"')
    } else if c == '\\' {
        Some('\\')
    } else if c == '/' {
        Some('/')
    } else if c == 'n' {
        Some('\n')
    } else if c == 'r' {
        Some('\r')
    } else if c == 't' {
        Some('\t')
    } else if c == 'b' {
        Some('\u{8}')
    } else if c == 'f' {
        Some('\u{c}')
    } else {
        None
    }
}

/// Advance past leading whitespace.
pub fn skip_ws(v: &Vec<char>, i: usize) -> (j: usize)
    requires
        i <= v.len(),
    ensures
        i <= j <= v.len(),
        spec_ws(v@.skip(i as int)) == v@.skip(j as int),
{
    let mut j: usize = i;
    loop
        invariant
            i <= j <= v.len(),
            spec_ws(v@.skip(i as int)) == spec_ws(v@.skip(j as int)),
        decreases v.len() - j,
    {
        if j == v.len() {
            assert(v@.skip(j as int).len() == 0);
            return j;
        }
        if !ws_exec(v[j]) {
            assert(v@.skip(j as int)[0] == v@[j as int]);
            return j;
        }
        proof {
            assert(v@.skip(j as int)[0] == v@[j as int]);
            lemma_skip_skip(v@, j as int, 1);
        }
        j = j + 1;
    }
}

/// Parse a JSON string starting at `i`; on success returns the decoded
/// characters and the position after the closing quote.
pub fn parse_string(v: &Vec<char>, i: usize) -> (r: Option<(Vec<char>, usize)>)
    requires
        i <= v.len(),
    ensures
        match r {
            Some(p) => {
                &&& i < p.1 <= v.len()
                &&& spec_string(v@.skip(i as int)) == Some((p.0@, v@.skip(p.1 as int)))
            },
            None => spec_string(v@.skip(i as int)) is None,
        },
{
    if i == v.len() || v[i] != '"' {
        proof {
            if i < v.len() {
                assert(v@.skip(i as int)[0] == v@[i as int]);
            }
        }
        return None;
    }
    proof {
        assert(v@.skip(i as int)[0] == v@[i as int]);
        lemma_skip_skip(v@, i as int, 1);
    }
    let mut cur: usize = i + 1;
    let mut acc: Vec<char> = Vec::new();
    loop
        invariant
            i + 1 <= cur <= v.len(),
            spec_string(v@.skip(i as int)) == spec_str_body(v@.skip(cur as int), acc@),
        decreases v.len() - cur,
    {
        if cur == v.len() {
            assert(v@.skip(cur as int).len() == 0);
            return None;
        }
        let c = v[cur];
        assert(v@.skip(cur as int)[0] == v@[cur as int]);
        if c == '"' {
            proof {
                lemma_skip_skip(v@, cur as int, 1);
            }
            return Some((acc, cur + 1));
        } else if c == '\\' {
            if cur + 1 == v.len() {
                assert(v@.skip(cur as int).len() == 1);
                return None;
            }
            assert(v@.skip(cur as int)[1] == v@[cur as int + 1]);
            match unescape_exec(v[cur + 1]) {
                Some(e) => {
                    proof {
                        lemma_skip_skip(v@, cur as int, 2);
                    }
                    acc.push(e);
                    cur = cur + 2;
                },
                None => {
                    return None;
                },
            }
        } else if c as u32 >= 0x20 {
            proof {
                lemma_skip_skip(v@, cur as int, 1);
            }
            acc.push(c);
            cur = cur + 1;
        } else {
            return None;
        }
    }
}

/// Parse a JSON unsigned integer starting at `i`.
pub fn parse_u64(v: &Vec<char>, i: usize) -> (r: Option<(u64, usize)>)
    requires
        i <= v.len(),
    ensures
        match r {
            Some(p) => {
                &&& i < p.1 <= v.len()
                &&& spec_u64(v@.skip(i as int)) == Some((p.0, v@.skip(p.1 as int)))
            },
            None => spec_u64(v@.skip(i as int)) is None,
        },
{
    if i == v.len() || !digit_exec(v[i]) {
        proof {
            if i < v.len() {
                assert(v@.skip(i as int)[0] == v@[i as int]);
            }
        }
        return None;
    }
    assert(v@.skip(i as int)[0] == v@[i as int]);
    if v[i] == '0' {
        if i + 1 < v.len() && digit_exec(v[i + 1]) {
            assert(v@.skip(i as int)[1] == v@[i as int + 1]);
            return None;
        }
        proof {
            if i + 1 < v.len() {
                assert(v@.skip(i as int)[1] == v@[i as int + 1]);
            }
            lemma_skip_skip(v@, i as int, 1);
        }
        return Some((0, i + 1));
    }
    let mut cur: usize = i;
    let mut acc: u64 = 0;
    loop
        invariant
            i <= cur <= v.len(),
            spec_u64(v@.skip(i as int)) == spec_u64_rest(v@.skip(cur as int), acc),
        decreases v.len() - cur,
    {
        if cur == v.len() {
            assert(v@.skip(cur as int).len() == 0);
            return Some((acc, cur));
        }
        let c = v[cur];
        assert(v@.skip(cur as int)[0] == v@[cur as int]);
        if !digit_exec(c) {
            return Some((acc, cur));
        }
        let d: u64 = (c as u32 - '0' as u32) as u64;
        assert(d == digit_val(c));
        if acc > (u64::MAX - d) / 10 {
            assert(acc * 10 + d > u64::MAX);
            return None;
        }
        assert(acc * 10 + d <= u64::MAX);
        proof {
            lemma_skip_skip(v@, cur as int, 1);
        }
        acc = acc * 10 + d;
        cur = cur + 1;
    }
}

/// Expect the literal `null` at `i`.
pub fn parse_null(v: &Vec<char>, i: usize) -> (r: Option<usize>)
    requires
        i <= v.len(),
    ensures
        match r {
            Some(j) => {
                &&& i < j <= v.len()
                &&& spec_null(v@.skip(i as int)) == Some(v@.skip(j as int))
            },
            None => spec_null(v@.skip(i as int)) is None,
        },
{
    if v.len() - i >= 4 && v[i] == 'n' && v[i + 1] == 'u' && v[i + 2] == 'l' && v[i + 3] == 'l' {
        proof {
            assert(v@.skip(i as int)[0] == v@[i as int]);
            assert(v@.skip(i as int)[1] == v@[i as int + 1]);
            assert(v@.skip(i as int)[2] == v@[i as int + 2]);
            assert(v@.skip(i as int)[3] == v@[i as int + 3]);
            lemma_skip_skip(v@, i as int, 4);
        }
        Some(i + 4)
    } else {
        proof {
            if v@.skip(i as int).len() >= 4 {
                assert(v@.skip(i as int)[0] == v@[i as int]);
                assert(v@.skip(i as int)[1] == v@[i as int + 1]);
                assert(v@.skip(i as int)[2] == v@[i as int + 2]);
                assert(v@.skip(i as int)[3] == v@[i as int + 3]);
            }
        }
        None
    }
}

/// Whether two character vectors hold the same characters.
pub fn chars_eq(a: &Vec<char>, b: &Vec<char>) -> (r: bool)
    ensures
        r == (a@ == b@),
{
    if a.len() != b.len() {
        return false;
    }
    let mut k: usize = 0;
    while k < a.len()
        invariant
            0 <= k <= a.len(),
            a.len() == b.len(),
            forall|m: int| 0 <= m < k ==> a@[m] == b@[m],
        decreases a.len() - k,
    {
        if a[k] != b[k] {
            return false;
        }
        k = k + 1;
    }
    proof {
        assert(a@ =~= b@);
    }
    true
}

} // verus!
