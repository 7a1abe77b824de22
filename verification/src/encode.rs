//! The canonical encoding of delta events: the inverse of the decoder on
//! every event whose strings it can escape, written without insignificant
//! whitespace and with the keys of each object in a fixed order.

use vstd::prelude::*;

use crate::chat::{
    ChatCompletionChoiceDelta, ChatCompletionEvent, ChatCompletionMessageRole, ChoiceDeltaView,
    Delta, DeltaView, EventView,
};
use crate::codec::{
    chars_of_str, choices_views, kw_choices, kw_content, kw_created, kw_delta, kw_finish_reason,
    kw_id, kw_index, kw_model, kw_object, kw_role, spec_role_chars,
};
use crate::models::{model_chars, spec_model_chars, ModelID};

verus! {

/// How one character stands inside an encoded string: the quote, the
/// backslash and five named control characters are escaped, everything else
/// is carried as it is.
pub open spec fn spec_esc_char(c: char) -> Seq<char> {
    if c == '"' {
        seq!['\\', '"']
    } else if c == '\\' {
        seq!['\\', '\\']
    } else if c == '\n' {
        seq!['\\', 'n']
    } else if c == '\r' {
        seq!['\\', 'r']
    } else if c == '\t' {
        seq!['\\', 't']
    } else if c == '\u{8}' {
        seq!['\\', 'b']
    } else if c == '\u{c}' {
        seq!['\\', 'f']
    } else {
        seq![c]
    }
}

pub open spec fn spec_esc(s: Seq<char>) -> Seq<char>
    decreases s.len(),
{
    if s.len() == 0 {
        Seq::empty()
    } else {
        spec_esc_char(s[0]) + spec_esc(s.skip(1))
    }
}

pub open spec fn spec_enc_string(s: Seq<char>) -> Seq<char> {
    seq!['"'] + spec_esc(s) + seq!['"']
}

/// A character the encoder can carry so that the decoder reads it back: any
/// non-control character, or one of the five control characters with a named
/// escape.
pub open spec fn encodable_char(c: char) -> bool {
    c as u32 >= 0x20 || c == '\n' || c == '\r' || c == '\t' || c == '\u{8}' || c == '\u{c}'
}

pub open spec fn encodable_chars(s: Seq<char>) -> bool {
    forall|i: int| 0 <= i < s.len() ==> encodable_char(s[i])
}

pub open spec fn digit_char(d: int) -> char {
    if d == 0 {
        '0'
    } else if d == 1 {
        '1'
    } else if d == 2 {
        '2'
    } else if d == 3 {
        '3'
    } else if d == 4 {
        '4'
    } else if d == 5 {
        '5'
    } else if d == 6 {
        '6'
    } else if d == 7 {
        '7'
    } else if d == 8 {
        '8'
    } else {
        '9'
    }
}

pub open spec fn spec_enc_u64(n: u64) -> Seq<char>
    decreases n,
{
    if n < 10 {
        seq![digit_char(n as int)]
    } else {
        spec_enc_u64(n / 10) + seq![digit_char((n % 10) as int)]
    }
}

pub open spec fn spec_enc_delta(d: DeltaView) -> Seq<char> {
    match d {
        DeltaView::Role(r) => seq!['{'] + spec_enc_string(kw_role()) + seq![':']
            + spec_enc_string(spec_role_chars(r)) + seq!['}'],
        DeltaView::Content(c) => seq!['{'] + spec_enc_string(kw_content()) + seq![':']
            + spec_enc_string(c) + seq!['}'],
        DeltaView::EndOfStream => seq!['{', '}'],
    }
}

pub open spec fn spec_enc_finish(f: Option<Seq<char>>) -> Seq<char> {
    match f {
        Some(s) => spec_enc_string(s),
        None => seq!['n', 'u', 'l', 'l'],
    }
}

pub open spec fn spec_enc_choice(c: ChoiceDeltaView) -> Seq<char> {
    seq!['{'] + spec_enc_string(kw_delta()) + seq![':'] + spec_enc_delta(c.delta) + seq![',']
        + spec_enc_string(kw_index()) + seq![':'] + spec_enc_u64(c.index) + seq![',']
        + spec_enc_string(kw_finish_reason()) + seq![':'] + spec_enc_finish(c.finish_reason)
        + seq!['}']
}

/// The elements of an encoded `choices` array after its first element, each
/// preceded by a comma, up to the closing bracket.
pub open spec fn spec_enc_choices_rest(cs: Seq<ChoiceDeltaView>) -> Seq<char>
    decreases cs.len(),
{
    if cs.len() == 0 {
        seq![']']
    } else {
        seq![','] + spec_enc_choice(cs[0]) + spec_enc_choices_rest(cs.skip(1))
    }
}

pub open spec fn spec_enc_choices(cs: Seq<ChoiceDeltaView>) -> Seq<char> {
    if cs.len() == 0 {
        seq!['[', ']']
    } else {
        seq!['['] + spec_enc_choice(cs[0]) + spec_enc_choices_rest(cs.skip(1))
    }
}

pub open spec fn spec_enc_event(e: EventView) -> Seq<char> {
    seq!['{'] + spec_enc_string(kw_id()) + seq![':'] + spec_enc_string(e.id) + seq![',']
        + spec_enc_string(kw_object()) + seq![':'] + spec_enc_string(e.object) + seq![',']
        + spec_enc_string(kw_created()) + seq![':'] + spec_enc_u64(e.created) + seq![',']
        + spec_enc_string(kw_model()) + seq![':'] + spec_enc_string(spec_model_chars(e.model))
        + seq![','] + spec_enc_string(kw_choices()) + seq![':'] + spec_enc_choices(e.choices)
        + seq!['}']
}

pub proof fn lemma_esc_concat(a: Seq<char>, b: Seq<char>)
    ensures
        spec_esc(a + b) == spec_esc(a) + spec_esc(b),
    decreases a.len(),
{
    if a.len() == 0 {
        assert(a + b =~= b);
        assert(spec_esc(a) + spec_esc(b) =~= spec_esc(b));
    } else {
        assert((a + b)[0] == a[0]);
        assert((a + b).skip(1) =~= a.skip(1) + b);
        lemma_esc_concat(a.skip(1), b);
        assert(spec_esc_char(a[0]) + (spec_esc(a.skip(1)) + spec_esc(b)) =~= (spec_esc_char(a[0])
            + spec_esc(a.skip(1))) + spec_esc(b));
    }
}

fn encode_char(acc: Vec<char>, c: char) -> (r: Vec<char>)
    ensures
        r@ == acc@ + spec_esc_char(c),
{
    let mut out = acc;
    if c == '"' {
        out.push('\\');
        out.push('"');
    } else if c == '\\' {
        out.push('\\');
        out.push('\\');
    } else if c == '\n' {
        out.push('\\');
        out.push('n');
    } else if c == '\r' {
        out.push('\\');
        out.push('r');
    } else if c == '\t' {
        out.push('\\');
        out.push('t');
    } else if c == '\u{8}' {
        out.push('\\');
        out.push('b');
    } else if c == '\u{c}' {
        out.push('\\');
        out.push('f');
    } else {
        out.push(c);
    }
    proof {
        assert(out@ =~= acc@ + spec_esc_char(c));
    }
    out
}

/// Append an encoded string, quotes included.
fn encode_string_chars(acc: Vec<char>, x: &Vec<char>) -> (r: Vec<char>)
    ensures
        r@ == acc@ + spec_enc_string(x@),
{
    let mut out = acc;
    let ghost a0 = out@;
    out.push('"');
    let mut i: usize = 0;
    proof {
        assert(spec_esc(x@.take(0)) =~= Seq::<char>::empty());
        assert(out@ =~= a0 + seq!['"'] + spec_esc(x@.take(0)));
    }
    while i < x.len()
        invariant
            0 <= i <= x.len(),
            out@ == a0 + seq!['"'] + spec_esc(x@.take(i as int)),
        decreases x.len() - i,
    {
        proof {
            assert(x@.take(i + 1) =~= x@.take(i as int) + seq![x@[i as int]]);
            lemma_esc_concat(x@.take(i as int), seq![x@[i as int]]);
            assert(seq![x@[i as int]].skip(1) =~= Seq::<char>::empty());
            assert(spec_esc(Seq::<char>::empty()) =~= Seq::<char>::empty());
            assert(spec_esc(seq![x@[i as int]].skip(1)) =~= Seq::<char>::empty());
            assert(spec_esc(seq![x@[i as int]]) =~= spec_esc_char(x@[i as int]));
        }
        out = encode_char(out, x[i]);
        proof {
            assert(out@ =~= a0 + seq!['"'] + spec_esc(x@.take(i + 1)));
        }
        i = i + 1;
    }
    out.push('"');
    proof {
        assert(x@.take(x@.len() as int) =~= x@);
        assert(out@ =~= a0 + spec_enc_string(x@));
    }
    out
}

/// Append an encoded string taken from a string slice.
fn encode_string_str(acc: Vec<char>, s: &str) -> (r: Vec<char>)
    ensures
        r@ == acc@ + spec_enc_string(s@),
{
    let cv = chars_of_str(s);
    encode_string_chars(acc, &cv)
}

fn digit_char_exec(d: u64) -> (c: char)
    requires
        d < 10,
    ensures
        c == digit_char(d as int),
{
    if d == 0 {
        '0'
    } else if d == 1 {
        '1'
    } else if d == 2 {
        '2'
    } else if d == 3 {
        '3'
    } else if d == 4 {
        '4'
    } else if d == 5 {
        '5'
    } else if d == 6 {
        '6'
    } else if d == 7 {
        '7'
    } else if d == 8 {
        '8'
    } else {
        '9'
    }
}

/// Append an encoded unsigned integer.
fn encode_u64(acc: Vec<char>, n: u64) -> (r: Vec<char>)
    ensures
        r@ == acc@ + spec_enc_u64(n),
    decreases n,
{
    if n < 10 {
        let mut out = acc;
        out.push(digit_char_exec(n));
        proof {
            assert(out@ =~= acc@ + spec_enc_u64(n));
        }
        out
    } else {
        let mut out = encode_u64(acc, n / 10);
        out.push(digit_char_exec(n % 10));
        proof {
            assert(out@ =~= acc@ + spec_enc_u64(n));
        }
        out
    }
}

/// Append an encoded delta object.
fn encode_delta(acc: Vec<char>, d: &Delta) -> (r: Vec<char>)
    ensures
        r@ == acc@ + spec_enc_delta(d@),
{
    match d {
        Delta::Role { role } => {
            let mut out = acc;
            let ghost a0 = out@;
            out.push('{');
            let kw = vec!['r', 'o', 'l', 'e'];
            assert(kw@ =~= kw_role());
            out = encode_string_chars(out, &kw);
            out.push(':');
            let rv = match role {
                ChatCompletionMessageRole::System => vec!['s', 'y', 's', 't', 'e', 'm'],
                ChatCompletionMessageRole::User => vec!['u', 's', 'e', 'r'],
                ChatCompletionMessageRole::Assistant => vec![
                    'a', 's', 's', 'i', 's', 't', 'a', 'n', 't',
                ],
            };
            assert(rv@ =~= spec_role_chars(*role));
            out = encode_string_chars(out, &rv);
            out.push('}');
            proof {
                assert(out@ =~= a0 + spec_enc_delta(d@));
            }
            out
        },
        Delta::Content { content } => {
            let mut out = acc;
            let ghost a0 = out@;
            out.push('{');
            let kw = vec!['c', 'o', 'n', 't', 'e', 'n', 't'];
            assert(kw@ =~= kw_content());
            out = encode_string_chars(out, &kw);
            out.push(':');
            out = encode_string_str(out, content.as_str());
            out.push('}');
            proof {
                assert(out@ =~= a0 + spec_enc_delta(d@));
            }
            out
        },
        Delta::EndOfStream {  } => {
            let mut out = acc;
            let ghost a0 = out@;
            out.push('{');
            out.push('}');
            proof {
                assert(out@ =~= a0 + spec_enc_delta(d@));
            }
            out
        },
    }
}

/// Append an encoded choice object.
#[verifier::rlimit(100)]
fn encode_choice(acc: Vec<char>, c: &ChatCompletionChoiceDelta) -> (r: Vec<char>)
    ensures
        r@ == acc@ + spec_enc_choice(c@),
{
    let mut out = acc;
    let ghost a0 = out@;
    out.push('{');
    let kwd = vec!['d', 'e', 'l', 't', 'a'];
    assert(kwd@ =~= kw_delta());
    out = encode_string_chars(out, &kwd);
    out.push(':');
    out = encode_delta(out, &c.delta);
    out.push(',');
    let kwi = vec!['i', 'n', 'd', 'e', 'x'];
    assert(kwi@ =~= kw_index());
    out = encode_string_chars(out, &kwi);
    out.push(':');
    out = encode_u64(out, c.index);
    out.push(',');
    let kwf = vec!['f', 'i', 'n', 'i', 's', 'h', '_', 'r', 'e', 'a', 's', 'o', 'n'];
    assert(kwf@ =~= kw_finish_reason());
    out = encode_string_chars(out, &kwf);
    out.push(':');
    match &c.finish_reason {
        Some(f) => {
            out = encode_string_str(out, f.as_str());
        },
        None => {
            out.push('n');
            out.push('u');
            out.push('l');
            out.push('l');
        },
    }
    out.push('}');
    proof {
        assert(out@ =~= a0 + spec_enc_choice(c@));
    }
    out
}

/// Append an encoded `choices` array.
fn encode_choices(acc: Vec<char>, cs: &Vec<ChatCompletionChoiceDelta>) -> (r: Vec<char>)
    ensures
        r@ == acc@ + spec_enc_choices(choices_views(cs@)),
{
    let ghost cv = choices_views(cs@);
    let mut out = acc;
    let ghost a0 = out@;
    out.push('[');
    if cs.len() == 0 {
        out.push(']');
        proof {
            assert(out@ =~= a0 + spec_enc_choices(cv));
        }
        return out;
    }
    out = encode_choice(out, &cs[0]);
    let mut k: usize = 1;
    proof {
        assert(cv[0] == cs@[0]@);
        assert(out@ + spec_enc_choices_rest(cv.skip(1)) =~= a0 + spec_enc_choices(cv));
    }
    while k < cs.len()
        invariant
            1 <= k <= cs.len(),
            cv == choices_views(cs@),
            out@ + spec_enc_choices_rest(cv.skip(k as int)) == a0 + spec_enc_choices(cv),
        decreases cs.len() - k,
    {
        out.push(',');
        out = encode_choice(out, &cs[k]);
        proof {
            assert(cv.skip(k as int)[0] == cs@[k as int]@);
            assert(cv.skip(k as int).skip(1) =~= cv.skip(k + 1));
            assert(out@ + spec_enc_choices_rest(cv.skip(k + 1)) =~= a0 + spec_enc_choices(cv));
        }
        k = k + 1;
    }
    out.push(']');
    proof {
        assert(cv.skip(cs@.len() as int) =~= Seq::<ChoiceDeltaView>::empty());
        assert(out@ =~= a0 + spec_enc_choices(cv));
    }
    out
}

pub open spec fn pow10(k: nat) -> int
    decreases k,
{
    if k == 0 {
        1
    } else {
        10 * pow10((k - 1) as nat)
    }
}

pub open spec fn ndigits(n: u64) -> nat
    decreases n,
{
    if n < 10 {
        1nat
    } else {
        1 + ndigits(n / 10)
    }
}

proof fn lemma_pow10_pos(k: nat)
    ensures
        pow10(k) >= 1,
    decreases k,
{
    if k > 0 {
        lemma_pow10_pos((k - 1) as nat);
    }
}

proof fn lemma_digit_char_val(d: int)
    requires
        0 <= d <= 9,
    ensures
        crate::json::is_digit(digit_char(d)),
        crate::json::digit_val(digit_char(d)) == d,
        d != 0 ==> digit_char(d) != '0',
{
}

proof fn lemma_enc_u64_head(n: u64)
    ensures
        spec_enc_u64(n).len() >= 1,
        crate::json::is_digit(spec_enc_u64(n)[0]),
        n >= 1 ==> spec_enc_u64(n)[0] != '0',
    decreases n,
{
    if n < 10 {
        lemma_digit_char_val(n as int);
    } else {
        lemma_enc_u64_head(n / 10);
        assert(spec_enc_u64(n)[0] == spec_enc_u64(n / 10)[0]);
    }
}

/// Running the number parser over an encoded number continues into the rest
/// with the digits taken into the accumulator.
proof fn lemma_u64_rest_general(n: u64, acc: u64, rest: Seq<char>)
    requires
        acc * pow10(ndigits(n)) + n <= u64::MAX,
    ensures
        crate::json::spec_u64_rest(spec_enc_u64(n) + rest, acc) == crate::json::spec_u64_rest(
            rest,
            (acc * pow10(ndigits(n)) + n) as u64,
        ),
    decreases n,
{
    let t = spec_enc_u64(n) + rest;
    if n < 10 {
        lemma_digit_char_val(n as int);
        assert(t[0] == digit_char(n as int));
        assert(t.skip(1) =~= rest);
        assert(pow10(0) == 1);
        assert(pow10(1) == 10);
        assert(crate::json::digit_val(t[0]) == n);
    } else {
        let q = n / 10;
        let d = n % 10;
        let p = pow10(ndigits(q));
        lemma_digit_char_val(d as int);
        lemma_pow10_pos(ndigits(q));
        assert(spec_enc_u64(n) == spec_enc_u64(q) + seq![digit_char(d as int)]);
        assert(t =~= spec_enc_u64(q) + (seq![digit_char(d as int)] + rest));
        assert(ndigits(n) == 1 + ndigits(q));
        assert(pow10(ndigits(n)) == 10 * p);
        assert(n == 10 * q + d);
        assert(acc * p + q <= u64::MAX) by (nonlinear_arith)
            requires
                acc * (10 * p) + (10 * q + d) <= u64::MAX,
                p >= 1,
                0 <= d,
                0 <= acc,
                0 <= q,
        ;
        lemma_u64_rest_general(q, acc, seq![digit_char(d as int)] + rest);
        let a2 = (acc * p + q) as u64;
        let t2 = seq![digit_char(d as int)] + rest;
        assert(t2[0] == digit_char(d as int));
        assert(t2.skip(1) =~= rest);
        assert(crate::json::digit_val(t2[0]) == d);
        assert(a2 * 10 + d == acc * pow10(ndigits(n)) + n) by (nonlinear_arith)
            requires
                a2 == acc * p + q,
                pow10(ndigits(n)) == 10 * p,
                n == 10 * q + d,
        ;
        assert(a2 * 10 + d <= u64::MAX);
    }
}

/// An encoded number followed by a non-digit parses back to itself.
pub proof fn lemma_enc_u64_parse(n: u64, rest: Seq<char>)
    requires
        rest.len() == 0 || !crate::json::is_digit(rest[0]),
    ensures
        crate::json::spec_u64(spec_enc_u64(n) + rest) == Some((n, rest)),
{
    let t = spec_enc_u64(n) + rest;
    lemma_enc_u64_head(n);
    assert(t[0] == spec_enc_u64(n)[0]);
    if n == 0 {
        assert(t[0] == '0');
        assert(t.skip(1) =~= rest);
        if t.len() >= 2 {
            assert(t[1] == rest[0]);
        }
    } else {
        assert(t[0] != '0');
        lemma_pow10_pos(ndigits(n));
        assert(0 * pow10(ndigits(n)) + n == n) by (nonlinear_arith)
            requires
                pow10(ndigits(n)) >= 1,
        ;
        lemma_u64_rest_general(n, 0, rest);
    }
}

/// Running the string-body parser over escaped characters followed by the
/// closing quote recovers the characters.
proof fn lemma_esc_parse(x: Seq<char>, acc: Seq<char>, rest: Seq<char>)
    requires
        encodable_chars(x),
    ensures
        crate::json::spec_str_body(spec_esc(x) + seq!['"'] + rest, acc) == Some((acc + x, rest)),
    decreases x.len(),
{
    let t = spec_esc(x) + seq!['"'] + rest;
    if x.len() == 0 {
        assert(spec_esc(x) =~= Seq::<char>::empty());
        assert(t[0] == '"');
        assert(t.skip(1) =~= rest);
        assert(acc + x =~= acc);
    } else {
        let c = x[0];
        assert(encodable_char(c));
        assert(x.skip(1).len() < x.len());
        assert(forall|i: int|
            0 <= i < x.skip(1).len() ==> encodable_char(#[trigger] x.skip(1)[i]));
        let tail = spec_esc(x.skip(1)) + seq!['"'] + rest;
        assert(spec_esc(x) == spec_esc_char(c) + spec_esc(x.skip(1)));
        if c == '"' || c == '\\' || c == '\n' || c == '\r' || c == '\t' || c == '\u{8}' || c
            == '\u{c}' {
            assert(spec_esc_char(c).len() == 2);
            assert(t[0] == spec_esc_char(c)[0]);
            assert(t[1] == spec_esc_char(c)[1]);
            assert(t[0] == '\\');
            assert(crate::json::spec_unescape(t[1]) == Some(c));
            assert(t.skip(2) =~= tail);
            lemma_esc_parse(x.skip(1), acc.push(c), rest);
            assert(acc.push(c) + x.skip(1) =~= acc + x);
        } else {
            assert(c as u32 >= 0x20);
            assert(spec_esc_char(c) =~= seq![c]);
            assert(t[0] == c);
            assert(crate::json::is_raw_string_char(c));
            assert(t.skip(1) =~= tail);
            lemma_esc_parse(x.skip(1), acc.push(c), rest);
            assert(acc.push(c) + x.skip(1) =~= acc + x);
        }
    }
}

/// An encoded string parses back to itself.
pub proof fn lemma_enc_string_parse(x: Seq<char>, rest: Seq<char>)
    requires
        encodable_chars(x),
    ensures
        crate::json::spec_string(spec_enc_string(x) + rest) == Some((x, rest)),
{
    let t = spec_enc_string(x) + rest;
    assert(t[0] == '"');
    assert(t.skip(1) =~= spec_esc(x) + seq!['"'] + rest);
    lemma_esc_parse(x, Seq::empty(), rest);
    assert(Seq::<char>::empty() + x =~= x);
}

proof fn lemma_ws_id(s: Seq<char>)
    requires
        s.len() == 0 || !crate::json::is_ws(s[0]),
    ensures
        crate::json::spec_ws(s) == s,
{
}

/// A delta whose strings the encoder can carry.
pub open spec fn delta_encodable(d: DeltaView) -> bool {
    match d {
        DeltaView::Content(c) => encodable_chars(c),
        _ => true,
    }
}

/// A choice whose strings the encoder can carry.
pub open spec fn choice_encodable(c: ChoiceDeltaView) -> bool {
    &&& delta_encodable(c.delta)
    &&& match c.finish_reason {
        Some(f) => encodable_chars(f),
        None => true,
    }
}

/// An event whose strings the encoder can carry.
pub open spec fn event_encodable(e: EventView) -> bool {
    &&& encodable_chars(e.id)
    &&& encodable_chars(e.object)
    &&& forall|i: int| 0 <= i < e.choices.len() ==> choice_encodable(#[trigger] e.choices[i])
}

/// An encoded delta object parses back to itself.
#[verifier::rlimit(100)]
pub proof fn lemma_enc_delta_parse(d: DeltaView, rest: Seq<char>)
    requires
        delta_encodable(d),
    ensures
        crate::codec::spec_delta(spec_enc_delta(d) + rest) == Some((d, rest)),
{
    let t = spec_enc_delta(d) + rest;
    match d {
        DeltaView::EndOfStream => {
            assert(t[0] == '{');
            let s1 = seq!['}'] + rest;
            assert(t.skip(1) =~= s1);
            assert(s1[0] == '}');
            lemma_ws_id(s1);
            assert(s1.skip(1) =~= rest);
        },
        DeltaView::Role(r) => {
            let e1 = spec_enc_string(kw_role());
            let e2 = spec_enc_string(spec_role_chars(r));
            let s_d = seq!['}'] + rest;
            let s_c = e2 + s_d;
            let s_b = seq![':'] + s_c;
            let s_a = e1 + s_b;
            assert(t[0] == '{');
            assert(t.skip(1) =~= s_a);
            assert(s_a[0] == '"');
            lemma_ws_id(s_a);
            assert(encodable_chars(kw_role()));
            lemma_enc_string_parse(kw_role(), s_b);
            assert(s_b[0] == ':');
            lemma_ws_id(s_b);
            assert(s_b.skip(1) =~= s_c);
            assert(s_c[0] == '"');
            lemma_ws_id(s_c);
            assert(encodable_chars(spec_role_chars(r)));
            lemma_enc_string_parse(spec_role_chars(r), s_d);
            assert(spec_role_chars(ChatCompletionMessageRole::System).len() == 6);
            assert(spec_role_chars(ChatCompletionMessageRole::User).len() == 4);
            assert(spec_role_chars(ChatCompletionMessageRole::Assistant).len() == 9);
            assert(crate::codec::spec_role_of(spec_role_chars(r)) == Some(r));
            assert(s_d[0] == '}');
            lemma_ws_id(s_d);
            assert(s_d.skip(1) =~= rest);
        },
        DeltaView::Content(c) => {
            let e1 = spec_enc_string(kw_content());
            let e2 = spec_enc_string(c);
            let s_d = seq!['}'] + rest;
            let s_c = e2 + s_d;
            let s_b = seq![':'] + s_c;
            let s_a = e1 + s_b;
            assert(t[0] == '{');
            assert(t.skip(1) =~= s_a);
            assert(s_a[0] == '"');
            lemma_ws_id(s_a);
            assert(encodable_chars(kw_content()));
            lemma_enc_string_parse(kw_content(), s_b);
            assert(kw_content().len() != kw_role().len());
            assert(s_b[0] == ':');
            lemma_ws_id(s_b);
            assert(s_b.skip(1) =~= s_c);
            assert(s_c[0] == '"');
            lemma_ws_id(s_c);
            lemma_enc_string_parse(c, s_d);
            assert(s_d[0] == '}');
            lemma_ws_id(s_d);
            assert(s_d.skip(1) =~= rest);
        },
    }
}

/// An encoded choice object parses back to itself.
#[verifier::rlimit(100)]
pub proof fn lemma_enc_choice_parse(c: ChoiceDeltaView, rest: Seq<char>)
    requires
        choice_encodable(c),
    ensures
        crate::codec::spec_choice(spec_enc_choice(c) + rest) == Some((c, rest)),
{
    reveal_with_fuel(crate::codec::spec_choice_pairs, 4);
    let t = spec_enc_choice(c) + rest;
    let e_kd = spec_enc_string(kw_delta());
    let e_d = spec_enc_delta(c.delta);
    let e_ki = spec_enc_string(kw_index());
    let e_n = spec_enc_u64(c.index);
    let e_kf = spec_enc_string(kw_finish_reason());
    let e_f = spec_enc_finish(c.finish_reason);
    let s_end = seq!['}'] + rest;
    let s8 = e_f + s_end;
    let s7 = seq![':'] + s8;
    let s6 = e_kf + s7;
    let s5 = seq![','] + s6;
    let s4b = e_n + s5;
    let s4 = seq![':'] + s4b;
    let s3 = e_ki + s4;
    let s2 = seq![','] + s3;
    let s1b = e_d + s2;
    let s1 = seq![':'] + s1b;
    let s0 = e_kd + s1;
    assert(t[0] == '{');
    assert(t.skip(1) =~= s0);
    assert(s0[0] == '"');
    lemma_ws_id(s0);
    assert(encodable_chars(kw_delta()));
    assert(encodable_chars(kw_index()));
    assert(encodable_chars(kw_finish_reason()));
    // first pair: delta
    lemma_enc_string_parse(kw_delta(), s1);
    assert(s1[0] == ':');
    lemma_ws_id(s1);
    assert(s1.skip(1) =~= s1b);
    assert(s1b[0] == '{');
    lemma_ws_id(s1b);
    lemma_enc_delta_parse(c.delta, s2);
    assert(s2[0] == ',');
    lemma_ws_id(s2);
    assert(s2.skip(1) =~= s3);
    assert(s3[0] == '"');
    lemma_ws_id(s3);
    // second pair: index
    lemma_enc_string_parse(kw_index(), s4);
    assert(kw_delta() != kw_index()) by {
        assert(kw_delta()[0] == 'd');
        assert(kw_index()[0] == 'i');
    }
    assert(s4[0] == ':');
    lemma_ws_id(s4);
    assert(s4.skip(1) =~= s4b);
    lemma_enc_u64_head(c.index);
    assert(s4b[0] == e_n[0]);
    lemma_ws_id(s4b);
    lemma_enc_u64_parse(c.index, s5);
    assert(s5[0] == ',');
    lemma_ws_id(s5);
    assert(s5.skip(1) =~= s6);
    assert(s6[0] == '"');
    lemma_ws_id(s6);
    // third pair: finish_reason
    lemma_enc_string_parse(kw_finish_reason(), s7);
    assert(kw_finish_reason().len() != kw_delta().len());
    assert(kw_finish_reason().len() != kw_index().len());
    assert(s7[0] == ':');
    lemma_ws_id(s7);
    assert(s7.skip(1) =~= s8);
    match c.finish_reason {
        Some(f) => {
            assert(s8[0] == '"');
            lemma_ws_id(s8);
            lemma_enc_string_parse(f, s_end);
        },
        None => {
            assert(e_f == seq!['n', 'u', 'l', 'l']);
            assert(s8[0] == 'n');
            lemma_ws_id(s8);
            assert(s8[1] == 'u');
            assert(s8[2] == 'l');
            assert(s8[3] == 'l');
            assert(s8.skip(4) =~= s_end);
        },
    }
    assert(s_end[0] == '}');
    lemma_ws_id(s_end);
    assert(s_end.skip(1) =~= rest);
    assert(crate::codec::spec_choice(t) == Some((c, rest)));
}

/// The elements of an encoded `choices` array parse back to themselves.
#[verifier::rlimit(100)]
#[verifier::spinoff_prover]
proof fn lemma_enc_choices_items(cs: Seq<ChoiceDeltaView>, acc: Seq<ChoiceDeltaView>, rest: Seq<
    char,
>)
    requires
        cs.len() > 0,
        forall|i: int| 0 <= i < cs.len() ==> choice_encodable(#[trigger] cs[i]),
    ensures
        crate::codec::spec_choices_items(
            spec_enc_choice(cs[0]) + (spec_enc_choices_rest(cs.skip(1)) + rest),
            acc,
        ) == Some((acc + cs, rest)),
    decreases cs.len(),
{
    let t = spec_enc_choice(cs[0]) + (spec_enc_choices_rest(cs.skip(1)) + rest);
    if cs.len() == 1 {
        assert(cs.skip(1) =~= Seq::<ChoiceDeltaView>::empty());
        assert(spec_enc_choices_rest(cs.skip(1)) == seq![']']);
        let s1 = seq![']'] + rest;
        assert(spec_enc_choices_rest(cs.skip(1)) + rest =~= s1);
        lemma_enc_choice_parse(cs[0], s1);
        assert(s1[0] == ']');
        lemma_ws_id(s1);
        assert(s1.skip(1) =~= rest);
        assert(acc.push(cs[0]) =~= acc + cs);
    } else {
        let tail = cs.skip(1);
        assert(tail[0] == cs[1]);
        let r2 = spec_enc_choices_rest(tail.skip(1)) + rest;
        let s1 = seq![','] + (spec_enc_choice(tail[0]) + r2);
        assert(spec_enc_choices_rest(tail) == seq![','] + spec_enc_choice(tail[0])
            + spec_enc_choices_rest(tail.skip(1)));
        assert(spec_enc_choices_rest(tail) + rest =~= s1);
        lemma_enc_choice_parse(cs[0], s1);
        assert(s1[0] == ',');
        lemma_ws_id(s1);
        let s2 = spec_enc_choice(tail[0]) + r2;
        assert(s1.skip(1) =~= s2);
        assert(s2[0] == '{');
        lemma_ws_id(s2);
        assert(forall|i: int| 0 <= i < tail.len() ==> choice_encodable(#[trigger] tail[i]));
        assert(s2 =~= spec_enc_choice(tail[0]) + (spec_enc_choices_rest(tail.skip(1)) + rest));
        lemma_enc_choices_items(tail, acc.push(cs[0]), rest);
        assert(acc.push(cs[0]) + tail =~= acc + cs);
    }
}

/// An encoded `choices` array parses back to itself.
pub proof fn lemma_enc_choices_parse(cs: Seq<ChoiceDeltaView>, rest: Seq<char>)
    requires
        forall|i: int| 0 <= i < cs.len() ==> choice_encodable(#[trigger] cs[i]),
    ensures
        crate::codec::spec_choices(spec_enc_choices(cs) + rest) == Some((cs, rest)),
{
    let t = spec_enc_choices(cs) + rest;
    assert(t[0] == '[');
    if cs.len() == 0 {
        let s1 = seq![']'] + rest;
        assert(t.skip(1) =~= s1);
        assert(s1[0] == ']');
        lemma_ws_id(s1);
        assert(s1.skip(1) =~= rest);
        assert(Seq::<ChoiceDeltaView>::empty() =~= cs);
    } else {
        let s1 = spec_enc_choice(cs[0]) + (spec_enc_choices_rest(cs.skip(1)) + rest);
        assert(t.skip(1) =~= s1);
        assert(s1[0] == '{');
        lemma_ws_id(s1);
        lemma_enc_choices_items(cs, Seq::empty(), rest);
        assert(Seq::<ChoiceDeltaView>::empty() + cs =~= cs);
    }
}

/// The encoded text of an event's last two pairs, `model` and `choices`,
/// from the key of `model` to the closing brace and beyond.
pub open spec fn spec_enc_event_tail(e: EventView, rest: Seq<char>) -> Seq<char> {
    spec_enc_string(kw_model()) + (seq![':'] + (spec_enc_string(spec_model_chars(e.model)) + (seq![
        ',',
    ] + (spec_enc_string(kw_choices()) + (seq![':'] + (spec_enc_choices(e.choices) + (seq!['}']
        + rest)))))))
}

/// The last two pairs of an encoded event object parse back to the model and
/// the choices.
#[verifier::rlimit(100)]
proof fn lemma_enc_event_tail_parse(e: EventView, rest: Seq<char>)
    requires
        event_encodable(e),
    ensures
        crate::codec::spec_event_pairs(
            spec_enc_event_tail(e, rest),
            Some(e.id),
            Some(e.object),
            Some(e.created),
            None,
            None,
        ) == Some(
            ((Some(e.id), Some(e.object), Some(e.created), Some(e.model), Some(e.choices)), rest),
        ),
{
    reveal_with_fuel(crate::codec::spec_event_pairs, 3);
    let e_k4 = spec_enc_string(kw_model());
    let e_v4 = spec_enc_string(spec_model_chars(e.model));
    let e_k5 = spec_enc_string(kw_choices());
    let e_v5 = spec_enc_choices(e.choices);
    let s_end = seq!['}'] + rest;
    let sv5 = e_v5 + s_end;
    let sc5 = seq![':'] + sv5;
    let sk5 = e_k5 + sc5;
    let sp5 = seq![','] + sk5;
    let sv4 = e_v4 + sp5;
    let sc4 = seq![':'] + sv4;
    let sk4 = e_k4 + sc4;
    assert(spec_enc_event_tail(e, rest) =~= sk4);
    assert(encodable_chars(kw_model()));
    assert(encodable_chars(kw_choices()));
    // pair: model
    lemma_enc_string_parse(kw_model(), sc4);
    assert(kw_model().len() != kw_id().len());
    assert(kw_model().len() != kw_object().len());
    assert(kw_model().len() != kw_created().len());
    assert(sc4[0] == ':');
    lemma_ws_id(sc4);
    assert(sc4.skip(1) =~= sv4);
    assert(sv4[0] == '"');
    lemma_ws_id(sv4);
    assert(encodable_chars(spec_model_chars(e.model)));
    lemma_enc_string_parse(spec_model_chars(e.model), sp5);
    crate::models::lemma_model_chars_injective(e.model);
    assert(sp5[0] == ',');
    lemma_ws_id(sp5);
    assert(sp5.skip(1) =~= sk5);
    // pair: choices
    assert(sk5[0] == '"');
    lemma_ws_id(sk5);
    lemma_enc_string_parse(kw_choices(), sc5);
    assert(kw_choices().len() != kw_id().len());
    assert(kw_choices().len() != kw_object().len());
    assert(kw_choices() != kw_created()) by {
        assert(kw_choices()[1] == 'h');
        assert(kw_created()[1] == 'r');
    }
    assert(kw_choices().len() != kw_model().len());
    assert(sc5[0] == ':');
    lemma_ws_id(sc5);
    assert(sc5.skip(1) =~= sv5);
    assert(sv5[0] == '[');
    lemma_ws_id(sv5);
    assert(sv5 =~= e_v5 + s_end);
    lemma_enc_choices_parse(e.choices, s_end);
    assert(s_end[0] == '}');
    lemma_ws_id(s_end);
    assert(s_end.skip(1) =~= rest);
}

/// An encoded event object parses back to itself.
#[verifier::rlimit(100)]
pub proof fn lemma_enc_event_parse(e: EventView, rest: Seq<char>)
    requires
        event_encodable(e),
    ensures
        crate::codec::spec_event(spec_enc_event(e) + rest) == Some((e, rest)),
{
    reveal_with_fuel(crate::codec::spec_event_pairs, 4);
    let t = spec_enc_event(e) + rest;
    let e_k1 = spec_enc_string(kw_id());
    let e_v1 = spec_enc_string(e.id);
    let e_k2 = spec_enc_string(kw_object());
    let e_v2 = spec_enc_string(e.object);
    let e_k3 = spec_enc_string(kw_created());
    let e_v3 = spec_enc_u64(e.created);
    let sk4 = spec_enc_event_tail(e, rest);
    let sp4 = seq![','] + sk4;
    let sv3 = e_v3 + sp4;
    let sc3 = seq![':'] + sv3;
    let sk3 = e_k3 + sc3;
    let sp3 = seq![','] + sk3;
    let sv2 = e_v2 + sp3;
    let sc2 = seq![':'] + sv2;
    let sk2 = e_k2 + sc2;
    let sp2 = seq![','] + sk2;
    let sv1 = e_v1 + sp2;
    let sc1 = seq![':'] + sv1;
    let sk1 = e_k1 + sc1;
    assert(t[0] == '{');
    assert(t.skip(1) =~= sk1);
    assert(encodable_chars(kw_id()));
    assert(encodable_chars(kw_object()));
    assert(encodable_chars(kw_created()));
    // pair 1: id
    assert(sk1[0] == '"');
    lemma_ws_id(sk1);
    lemma_enc_string_parse(kw_id(), sc1);
    assert(sc1[0] == ':');
    lemma_ws_id(sc1);
    assert(sc1.skip(1) =~= sv1);
    assert(sv1[0] == '"');
    lemma_ws_id(sv1);
    lemma_enc_string_parse(e.id, sp2);
    assert(sp2[0] == ',');
    lemma_ws_id(sp2);
    assert(sp2.skip(1) =~= sk2);
    // pair 2: object
    assert(sk2[0] == '"');
    lemma_ws_id(sk2);
    lemma_enc_string_parse(kw_object(), sc2);
    assert(kw_object().len() != kw_id().len());
    assert(sc2[0] == ':');
    lemma_ws_id(sc2);
    assert(sc2.skip(1) =~= sv2);
    assert(sv2[0] == '"');
    lemma_ws_id(sv2);
    lemma_enc_string_parse(e.object, sp3);
    assert(sp3[0] == ',');
    lemma_ws_id(sp3);
    assert(sp3.skip(1) =~= sk3);
    // pair 3: created
    assert(sk3[0] == '"');
    lemma_ws_id(sk3);
    lemma_enc_string_parse(kw_created(), sc3);
    assert(kw_created().len() != kw_id().len());
    assert(kw_created().len() != kw_object().len());
    assert(sc3[0] == ':');
    lemma_ws_id(sc3);
    assert(sc3.skip(1) =~= sv3);
    lemma_enc_u64_head(e.created);
    assert(sv3[0] == e_v3[0]);
    lemma_ws_id(sv3);
    lemma_enc_u64_parse(e.created, sp4);
    assert(sp4[0] == ',');
    lemma_ws_id(sp4);
    assert(sp4.skip(1) =~= sk4);
    // pairs 4 and 5: model and choices
    assert(sk4[0] == '"');
    lemma_ws_id(sk4);
    lemma_enc_event_tail_parse(e, rest);
    assert(crate::codec::spec_event(t) == Some((e, rest)));
}

/// Decoding an encoded event gives the event back: the round trip preserves
/// the discriminated delta variant of every choice and every field around
/// it.  It asks only that the event's strings carry no control character
/// beyond the five with named escapes.
pub proof fn lemma_round_trip(e: EventView)
    requires
        event_encodable(e),
    ensures
        crate::codec::spec_decode_event(spec_enc_event(e)) == Some(e),
{
    let t = spec_enc_event(e);
    assert(t =~= t + Seq::<char>::empty());
    lemma_enc_event_parse(e, Seq::empty());
    assert(t[0] == '{');
    lemma_ws_id(t);
    assert(crate::json::spec_ws(Seq::<char>::empty()).len() == 0);
}

/// Encode a whole event in the canonical shape the decoder reads back.
#[verifier::rlimit(100)]
pub fn encode_event(e: &ChatCompletionEvent) -> (r: String)
    ensures
        r@ == spec_enc_event(e@),
{
    let mut out: Vec<char> = Vec::new();
    let ghost a0 = out@;
    out.push('{');
    let kwid = vec!['i', 'd'];
    assert(kwid@ =~= kw_id());
    out = encode_string_chars(out, &kwid);
    out.push(':');
    out = encode_string_str(out, e.id.as_str());
    out.push(',');
    let kwob = vec!['o', 'b', 'j', 'e', 'c', 't'];
    assert(kwob@ =~= kw_object());
    out = encode_string_chars(out, &kwob);
    out.push(':');
    out = encode_string_str(out, e.object.as_str());
    out.push(',');
    let kwcr = vec!['c', 'r', 'e', 'a', 't', 'e', 'd'];
    assert(kwcr@ =~= kw_created());
    out = encode_string_chars(out, &kwcr);
    out.push(':');
    out = encode_u64(out, e.created);
    out.push(',');
    let kwmo = vec!['m', 'o', 'd', 'e', 'l'];
    assert(kwmo@ =~= kw_model());
    out = encode_string_chars(out, &kwmo);
    out.push(':');
    let mv = model_chars(e.model);
    out = encode_string_chars(out, &mv);
    out.push(',');
    let kwch = vec!['c', 'h', 'o', 'i', 'c', 'e', 's'];
    assert(kwch@ =~= kw_choices());
    out = encode_string_chars(out, &kwch);
    out.push(':');
    out = encode_choices(out, &e.choices);
    out.push('}');
    proof {
        assert(out@ =~= spec_enc_event(e@));
    }
    crate::codec::chars_to_string(&out)
}

} // verus!
