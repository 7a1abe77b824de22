//! The wire grammar of streamed delta events, as consuming specification
//! parsers, and the verified executable decoder and encoder built on it.
//!
//! An event payload is a JSON object `{"id":…,"object":…,"created":…,
//! "model":…,"choices":[…]}`; each choice is `{"delta":…,"index":…,
//! "finish_reason":…}`; a delta is distinguished structurally by which of the
//! `role` and `content` fields is present.  Keys may come in any order, each
//! at most once; an unknown key, a missing mandatory key or a malformed value
//! is a decode error.

use vstd::prelude::*;

use crate::chat::{
    ChatCompletionChoiceDelta, ChatCompletionEvent, ChatCompletionMessageRole, ChoiceDeltaView,
    Delta, DeltaView, EventView,
};
use crate::json::{
    chars_eq, is_digit, is_ws, lemma_skip_skip, lemma_string_len, lemma_u64_len, lemma_ws_len,
    parse_null, parse_string, parse_u64, skip_ws, spec_null, spec_string, spec_u64, spec_ws,
};
use crate::models::{spec_model_of_chars, ModelID};

verus! {

/// The literal sentinel that ends the whole event stream; it is not JSON and
/// must never reach the event decoder.
pub open spec fn spec_sentinel() -> Seq<char> {
    seq!['[', 'D', 'O', 'N', 'E', ']']
}

pub open spec fn kw_id() -> Seq<char> {
    seq!['i', 'd']
}

pub open spec fn kw_object() -> Seq<char> {
    seq!['o', 'b', 'j', 'e', 'c', 't']
}

pub open spec fn kw_created() -> Seq<char> {
    seq!['c', 'r', 'e', 'a', 't', 'e', 'd']
}

pub open spec fn kw_model() -> Seq<char> {
    seq!['m', 'o', 'd', 'e', 'l']
}

pub open spec fn kw_choices() -> Seq<char> {
    seq!['c', 'h', 'o', 'i', 'c', 'e', 's']
}

pub open spec fn kw_index() -> Seq<char> {
    seq!['i', 'n', 'd', 'e', 'x']
}

pub open spec fn kw_delta() -> Seq<char> {
    seq!['d', 'e', 'l', 't', 'a']
}

pub open spec fn kw_finish_reason() -> Seq<char> {
    seq!['f', 'i', 'n', 'i', 's', 'h', '_', 'r', 'e', 'a', 's', 'o', 'n']
}

pub open spec fn kw_role() -> Seq<char> {
    seq!['r', 'o', 'l', 'e']
}

pub open spec fn kw_content() -> Seq<char> {
    seq!['c', 'o', 'n', 't', 'e', 'n', 't']
}

/// The wire string of a message role.
pub open spec fn spec_role_chars(r: ChatCompletionMessageRole) -> Seq<char> {
    match r {
        ChatCompletionMessageRole::System => seq!['s', 'y', 's', 't', 'e', 'm'],
        ChatCompletionMessageRole::User => seq!['u', 's', 'e', 'r'],
        ChatCompletionMessageRole::Assistant => seq![
            'a', 's', 's', 'i', 's', 't', 'a', 'n', 't',
        ],
    }
}

/// Which role, if any, a wire string denotes.
pub open spec fn spec_role_of(s: Seq<char>) -> Option<ChatCompletionMessageRole> {
    if s == spec_role_chars(ChatCompletionMessageRole::System) {
        Some(ChatCompletionMessageRole::System)
    } else if s == spec_role_chars(ChatCompletionMessageRole::User) {
        Some(ChatCompletionMessageRole::User)
    } else if s == spec_role_chars(ChatCompletionMessageRole::Assistant) {
        Some(ChatCompletionMessageRole::Assistant)
    } else {
        None
    }
}

/// The delta a pair of optional fields denotes: the variants are told apart
/// by which field is present, and a delta carrying both is malformed.
pub open spec fn spec_delta_fields(
    role: Option<ChatCompletionMessageRole>,
    content: Option<Seq<char>>,
) -> Option<DeltaView> {
    match (role, content) {
        (Some(r), None) => Some(DeltaView::Role(r)),
        (None, Some(c)) => Some(DeltaView::Content(c)),
        (None, None) => Some(DeltaView::EndOfStream),
        (Some(_), Some(_)) => None,
    }
}

/// The pairs of a delta object, starting at a key; `role` and `content` hold
/// what earlier pairs of the same object established.
pub open spec fn spec_delta_pairs(
    s: Seq<char>,
    role: Option<ChatCompletionMessageRole>,
    content: Option<Seq<char>>,
) -> Option<((Option<ChatCompletionMessageRole>, Option<Seq<char>>), Seq<char>)>
    decreases s.len(),
    via spec_delta_pairs_dec
{
    match spec_string(s) {
        None => None,
        Some((k, r1)) => {
            let r2 = spec_ws(r1);
            if r2.len() > 0 && r2[0] == ':' {
                let r3 = spec_ws(r2.skip(1));
                let step: Option<
                    (Option<ChatCompletionMessageRole>, Option<Seq<char>>, Seq<char>),
                > = if k == kw_role() {
                    if role is Some {
                        None
                    } else {
                        match spec_string(r3) {
                            Some((rv, r4)) => match spec_role_of(rv) {
                                Some(ro) => Some((Some(ro), content, r4)),
                                None => None,
                            },
                            None => None,
                        }
                    }
                } else if k == kw_content() {
                    if content is Some {
                        None
                    } else {
                        match spec_string(r3) {
                            Some((cv, r4)) => Some((role, Some(cv), r4)),
                            None => None,
                        }
                    }
                } else {
                    None
                };
                match step {
                    None => None,
                    Some((role2, content2, r4)) => {
                        let r5 = spec_ws(r4);
                        if r5.len() > 0 && r5[0] == '}' {
                            Some(((role2, content2), r5.skip(1)))
                        } else if r5.len() > 0 && r5[0] == ',' {
                            spec_delta_pairs(spec_ws(r5.skip(1)), role2, content2)
                        } else {
                            None
                        }
                    },
                }
            } else {
                None
            }
        },
    }
}

#[via_fn]
proof fn spec_delta_pairs_dec(
    s: Seq<char>,
    role: Option<ChatCompletionMessageRole>,
    content: Option<Seq<char>>,
) {
    lemma_string_len(s);
    if let Some((k, r1)) = spec_string(s) {
        lemma_ws_len(r1);
        let r2 = spec_ws(r1);
        if r2.len() > 0 && r2[0] == ':' {
            lemma_ws_len(r2.skip(1));
            let r3 = spec_ws(r2.skip(1));
            lemma_string_len(r3);
            if let Some((rv, r4)) = spec_string(r3) {
                lemma_ws_len(r4);
                let r5 = spec_ws(r4);
                if r5.len() > 0 {
                    lemma_ws_len(r5.skip(1));
                }
            }
        }
    }
}

/// A delta object, brace to brace.
pub open spec fn spec_delta(s: Seq<char>) -> Option<(DeltaView, Seq<char>)> {
    if s.len() > 0 && s[0] == '{' {
        let r1 = spec_ws(s.skip(1));
        if r1.len() > 0 && r1[0] == '}' {
            Some((DeltaView::EndOfStream, r1.skip(1)))
        } else {
            match spec_delta_pairs(r1, None, None) {
                Some((fields, rest)) => match spec_delta_fields(fields.0, fields.1) {
                    Some(d) => Some((d, rest)),
                    None => None,
                },
                None => None,
            }
        }
    } else {
        None
    }
}

pub proof fn lemma_delta_pairs_len(
    s: Seq<char>,
    role: Option<ChatCompletionMessageRole>,
    content: Option<Seq<char>>,
)
    ensures
        spec_delta_pairs(s, role, content) matches Some(p) ==> p.1.len() < s.len(),
    decreases s.len(),
{
    lemma_string_len(s);
    if let Some((k, r1)) = spec_string(s) {
        lemma_ws_len(r1);
        let r2 = spec_ws(r1);
        if r2.len() > 0 && r2[0] == ':' {
            lemma_ws_len(r2.skip(1));
            let r3 = spec_ws(r2.skip(1));
            lemma_string_len(r3);
            if let Some((rv, r4)) = spec_string(r3) {
                lemma_ws_len(r4);
                let r5 = spec_ws(r4);
                if r5.len() > 0 && r5[0] == ',' {
                    lemma_ws_len(r5.skip(1));
                    let next = spec_ws(r5.skip(1));
                    if spec_role_of(rv) is Some {
                        lemma_delta_pairs_len(next, Some(spec_role_of(rv)->0), content);
                    }
                    lemma_delta_pairs_len(next, role, Some(rv));
                }
            }
        }
    }
}

pub proof fn lemma_delta_len(s: Seq<char>)
    ensures
        spec_delta(s) matches Some(p) ==> p.1.len() < s.len(),
{
    if s.len() > 0 && s[0] == '{' {
        lemma_ws_len(s.skip(1));
        let r1 = spec_ws(s.skip(1));
        if !(r1.len() > 0 && r1[0] == '}') {
            lemma_delta_pairs_len(r1, None, None);
        }
    }
}

/// The value of a `finish_reason` pair: a string or `null`.
pub open spec fn spec_finish_value(s: Seq<char>) -> Option<(Option<Seq<char>>, Seq<char>)> {
    if s.len() > 0 && s[0] == '"' {
        match spec_string(s) {
            Some((f, r)) => Some((Some(f), r)),
            None => None,
        }
    } else {
        match spec_null(s) {
            Some(r) => Some((None, r)),
            None => None,
        }
    }
}

/// The pairs of a choice object: `delta`, `index` and `finish_reason`, each
/// at most once, in any order.
pub open spec fn spec_choice_pairs(
    s: Seq<char>,
    delta: Option<DeltaView>,
    index: Option<u64>,
    finish: Option<Option<Seq<char>>>,
) -> Option<((Option<DeltaView>, Option<u64>, Option<Option<Seq<char>>>), Seq<char>)>
    decreases s.len(),
    via spec_choice_pairs_dec
{
    match spec_string(s) {
        None => None,
        Some((k, r1)) => {
            let r2 = spec_ws(r1);
            if r2.len() > 0 && r2[0] == ':' {
                let r3 = spec_ws(r2.skip(1));
                let step: Option<
                    (Option<DeltaView>, Option<u64>, Option<Option<Seq<char>>>, Seq<char>),
                > = if k == kw_delta() {
                    if delta is Some {
                        None
                    } else {
                        match spec_delta(r3) {
                            Some((d, r4)) => Some((Some(d), index, finish, r4)),
                            None => None,
                        }
                    }
                } else if k == kw_index() {
                    if index is Some {
                        None
                    } else {
                        match spec_u64(r3) {
                            Some((n, r4)) => Some((delta, Some(n), finish, r4)),
                            None => None,
                        }
                    }
                } else if k == kw_finish_reason() {
                    if finish is Some {
                        None
                    } else {
                        match spec_finish_value(r3) {
                            Some((f, r4)) => Some((delta, index, Some(f), r4)),
                            None => None,
                        }
                    }
                } else {
                    None
                };
                match step {
                    None => None,
                    Some((delta2, index2, finish2, r4)) => {
                        let r5 = spec_ws(r4);
                        if r5.len() > 0 && r5[0] == '}' {
                            Some(((delta2, index2, finish2), r5.skip(1)))
                        } else if r5.len() > 0 && r5[0] == ',' {
                            spec_choice_pairs(spec_ws(r5.skip(1)), delta2, index2, finish2)
                        } else {
                            None
                        }
                    },
                }
            } else {
                None
            }
        },
    }
}

pub proof fn lemma_finish_value_len(s: Seq<char>)
    ensures
        spec_finish_value(s) matches Some(p) ==> p.1.len() < s.len(),
{
    lemma_string_len(s);
}

#[via_fn]
proof fn spec_choice_pairs_dec(
    s: Seq<char>,
    delta: Option<DeltaView>,
    index: Option<u64>,
    finish: Option<Option<Seq<char>>>,
) {
    lemma_string_len(s);
    if let Some((k, r1)) = spec_string(s) {
        lemma_ws_len(r1);
        let r2 = spec_ws(r1);
        if r2.len() > 0 && r2[0] == ':' {
            lemma_ws_len(r2.skip(1));
            let r3 = spec_ws(r2.skip(1));
            lemma_delta_len(r3);
            lemma_u64_len(r3);
            lemma_finish_value_len(r3);
            if let Some((d, r4)) = spec_delta(r3) {
                lemma_ws_len(r4);
                let r5 = spec_ws(r4);
                if r5.len() > 0 {
                    lemma_ws_len(r5.skip(1));
                }
            }
            if let Some((n, r4)) = spec_u64(r3) {
                lemma_ws_len(r4);
                let r5 = spec_ws(r4);
                if r5.len() > 0 {
                    lemma_ws_len(r5.skip(1));
                }
            }
            if let Some((f, r4)) = spec_finish_value(r3) {
                lemma_ws_len(r4);
                let r5 = spec_ws(r4);
                if r5.len() > 0 {
                    lemma_ws_len(r5.skip(1));
                }
            }
        }
    }
}

/// A choice object, brace to brace; `delta` and `index` are mandatory,
/// `finish_reason` defaults to null.
pub open spec fn spec_choice(s: Seq<char>) -> Option<(ChoiceDeltaView, Seq<char>)> {
    if s.len() > 0 && s[0] == '{' {
        let r1 = spec_ws(s.skip(1));
        match spec_choice_pairs(r1, None, None, None) {
            Some((fields, rest)) => match (fields.0, fields.1) {
                (Some(d), Some(n)) => Some(
                    (
                        ChoiceDeltaView {
                            index: n,
                            delta: d,
                            finish_reason: match fields.2 {
                                Some(f) => f,
                                None => None,
                            },
                        },
                        rest,
                    ),
                ),
                _ => None,
            },
            None => None,
        }
    } else {
        None
    }
}

pub proof fn lemma_choice_pairs_len(
    s: Seq<char>,
    delta: Option<DeltaView>,
    index: Option<u64>,
    finish: Option<Option<Seq<char>>>,
)
    ensures
        spec_choice_pairs(s, delta, index, finish) matches Some(p) ==> p.1.len() < s.len(),
    decreases s.len(),
{
    lemma_string_len(s);
    if let Some((k, r1)) = spec_string(s) {
        lemma_ws_len(r1);
        let r2 = spec_ws(r1);
        if r2.len() > 0 && r2[0] == ':' {
            lemma_ws_len(r2.skip(1));
            let r3 = spec_ws(r2.skip(1));
            lemma_delta_len(r3);
            lemma_u64_len(r3);
            lemma_finish_value_len(r3);
            if let Some((d, r4)) = spec_delta(r3) {
                lemma_ws_len(r4);
                let r5 = spec_ws(r4);
                if r5.len() > 0 && r5[0] == ',' {
                    lemma_ws_len(r5.skip(1));
                    let next = spec_ws(r5.skip(1));
                    lemma_choice_pairs_len(next, Some(d), index, finish);
                }
            }
            if let Some((n, r4)) = spec_u64(r3) {
                lemma_ws_len(r4);
                let r5 = spec_ws(r4);
                if r5.len() > 0 && r5[0] == ',' {
                    lemma_ws_len(r5.skip(1));
                    let next = spec_ws(r5.skip(1));
                    lemma_choice_pairs_len(next, delta, Some(n), finish);
                }
            }
            if let Some((f, r4)) = spec_finish_value(r3) {
                lemma_ws_len(r4);
                let r5 = spec_ws(r4);
                if r5.len() > 0 && r5[0] == ',' {
                    lemma_ws_len(r5.skip(1));
                    let next = spec_ws(r5.skip(1));
                    lemma_choice_pairs_len(next, delta, index, Some(f));
                }
            }
        }
    }
}

pub proof fn lemma_choice_len(s: Seq<char>)
    ensures
        spec_choice(s) matches Some(p) ==> p.1.len() < s.len(),
{
    if s.len() > 0 && s[0] == '{' {
        lemma_ws_len(s.skip(1));
        lemma_choice_pairs_len(spec_ws(s.skip(1)), None, None, None);
    }
}

/// The elements of the `choices` array, starting at a value.
pub open spec fn spec_choices_items(s: Seq<char>, acc: Seq<ChoiceDeltaView>) -> Option<
    (Seq<ChoiceDeltaView>, Seq<char>),
>
    decreases s.len(),
    via spec_choices_items_dec
{
    match spec_choice(s) {
        None => None,
        Some((c, r1)) => {
            let r2 = spec_ws(r1);
            if r2.len() > 0 && r2[0] == ']' {
                Some((acc.push(c), r2.skip(1)))
            } else if r2.len() > 0 && r2[0] == ',' {
                spec_choices_items(spec_ws(r2.skip(1)), acc.push(c))
            } else {
                None
            }
        },
    }
}

#[via_fn]
proof fn spec_choices_items_dec(s: Seq<char>, acc: Seq<ChoiceDeltaView>) {
    lemma_choice_len(s);
    if let Some((c, r1)) = spec_choice(s) {
        lemma_ws_len(r1);
        let r2 = spec_ws(r1);
        if r2.len() > 0 {
            lemma_ws_len(r2.skip(1));
        }
    }
}

/// The `choices` array, bracket to bracket.
pub open spec fn spec_choices(s: Seq<char>) -> Option<(Seq<ChoiceDeltaView>, Seq<char>)> {
    if s.len() > 0 && s[0] == '[' {
        let r1 = spec_ws(s.skip(1));
        if r1.len() > 0 && r1[0] == ']' {
            Some((Seq::empty(), r1.skip(1)))
        } else {
            spec_choices_items(r1, Seq::empty())
        }
    } else {
        None
    }
}

pub proof fn lemma_choices_items_len(s: Seq<char>, acc: Seq<ChoiceDeltaView>)
    ensures
        spec_choices_items(s, acc) matches Some(p) ==> p.1.len() < s.len(),
    decreases s.len(),
{
    lemma_choice_len(s);
    if let Some((c, r1)) = spec_choice(s) {
        lemma_ws_len(r1);
        let r2 = spec_ws(r1);
        if r2.len() > 0 && r2[0] == ',' {
            lemma_ws_len(r2.skip(1));
            lemma_choices_items_len(spec_ws(r2.skip(1)), acc.push(c));
        }
    }
}

pub proof fn lemma_choices_len(s: Seq<char>)
    ensures
        spec_choices(s) matches Some(p) ==> p.1.len() < s.len(),
{
    if s.len() > 0 && s[0] == '[' {
        lemma_ws_len(s.skip(1));
        lemma_choices_items_len(spec_ws(s.skip(1)), Seq::empty());
    }
}

/// The pairs of an event object: `id`, `object`, `created`, `model` and
/// `choices`, each at most once, in any order.
pub open spec fn spec_event_pairs(
    s: Seq<char>,
    id: Option<Seq<char>>,
    object: Option<Seq<char>>,
    created: Option<u64>,
    model: Option<ModelID>,
    choices: Option<Seq<ChoiceDeltaView>>,
) -> Option<
    (
        (
            Option<Seq<char>>,
            Option<Seq<char>>,
            Option<u64>,
            Option<ModelID>,
            Option<Seq<ChoiceDeltaView>>,
        ),
        Seq<char>,
    ),
>
    decreases s.len(),
    via spec_event_pairs_dec
{
    match spec_string(s) {
        None => None,
        Some((k, r1)) => {
            let r2 = spec_ws(r1);
            if r2.len() > 0 && r2[0] == ':' {
                let r3 = spec_ws(r2.skip(1));
                let step: Option<
                    (
                        Option<Seq<char>>,
                        Option<Seq<char>>,
                        Option<u64>,
                        Option<ModelID>,
                        Option<Seq<ChoiceDeltaView>>,
                        Seq<char>,
                    ),
                > = if k == kw_id() {
                    if id is Some {
                        None
                    } else {
                        match spec_string(r3) {
                            Some((v, r4)) => Some((Some(v), object, created, model, choices, r4)),
                            None => None,
                        }
                    }
                } else if k == kw_object() {
                    if object is Some {
                        None
                    } else {
                        match spec_string(r3) {
                            Some((v, r4)) => Some((id, Some(v), created, model, choices, r4)),
                            None => None,
                        }
                    }
                } else if k == kw_created() {
                    if created is Some {
                        None
                    } else {
                        match spec_u64(r3) {
                            Some((v, r4)) => Some((id, object, Some(v), model, choices, r4)),
                            None => None,
                        }
                    }
                } else if k == kw_model() {
                    if model is Some {
                        None
                    } else {
                        match spec_string(r3) {
                            Some((v, r4)) => match spec_model_of_chars(v) {
                                Some(m) => Some((id, object, created, Some(m), choices, r4)),
                                None => None,
                            },
                            None => None,
                        }
                    }
                } else if k == kw_choices() {
                    if choices is Some {
                        None
                    } else {
                        match spec_choices(r3) {
                            Some((v, r4)) => Some((id, object, created, model, Some(v), r4)),
                            None => None,
                        }
                    }
                } else {
                    None
                };
                match step {
                    None => None,
                    Some((id2, object2, created2, model2, choices2, r4)) => {
                        let r5 = spec_ws(r4);
                        if r5.len() > 0 && r5[0] == '}' {
                            Some(((id2, object2, created2, model2, choices2), r5.skip(1)))
                        } else if r5.len() > 0 && r5[0] == ',' {
                            spec_event_pairs(
                                spec_ws(r5.skip(1)),
                                id2,
                                object2,
                                created2,
                                model2,
                                choices2,
                            )
                        } else {
                            None
                        }
                    },
                }
            } else {
                None
            }
        },
    }
}

#[via_fn]
proof fn spec_event_pairs_dec(
    s: Seq<char>,
    id: Option<Seq<char>>,
    object: Option<Seq<char>>,
    created: Option<u64>,
    model: Option<ModelID>,
    choices: Option<Seq<ChoiceDeltaView>>,
) {
    lemma_string_len(s);
    if let Some((k, r1)) = spec_string(s) {
        lemma_ws_len(r1);
        let r2 = spec_ws(r1);
        if r2.len() > 0 && r2[0] == ':' {
            lemma_ws_len(r2.skip(1));
            let r3 = spec_ws(r2.skip(1));
            lemma_string_len(r3);
            lemma_u64_len(r3);
            lemma_choices_len(r3);
            if let Some((v, r4)) = spec_string(r3) {
                lemma_ws_len(r4);
                let r5 = spec_ws(r4);
                if r5.len() > 0 {
                    lemma_ws_len(r5.skip(1));
                }
            }
            if let Some((v, r4)) = spec_u64(r3) {
                lemma_ws_len(r4);
                let r5 = spec_ws(r4);
                if r5.len() > 0 {
                    lemma_ws_len(r5.skip(1));
                }
            }
            if let Some((v, r4)) = spec_choices(r3) {
                lemma_ws_len(r4);
                let r5 = spec_ws(r4);
                if r5.len() > 0 {
                    lemma_ws_len(r5.skip(1));
                }
            }
        }
    }
}

/// An event object, brace to brace; every field is mandatory.
pub open spec fn spec_event(s: Seq<char>) -> Option<(EventView, Seq<char>)> {
    if s.len() > 0 && s[0] == '{' {
        let r1 = spec_ws(s.skip(1));
        match spec_event_pairs(r1, None, None, None, None, None) {
            Some((fields, rest)) => match fields {
                (Some(id), Some(object), Some(created), Some(model), Some(choices)) => Some(
                    (EventView { id, object, created, model, choices }, rest),
                ),
                _ => None,
            },
            None => None,
        }
    } else {
        None
    }
}

/// What a whole payload denotes: one event object, possibly surrounded by
/// whitespace, and nothing else.
pub open spec fn spec_decode_event(s: Seq<char>) -> Option<EventView> {
    match spec_event(spec_ws(s)) {
        Some((e, rest)) => {
            if spec_ws(rest).len() == 0 {
                Some(e)
            } else {
                None
            }
        },
        None => None,
    }
}

/// A payload that does not parse as an event.
#[derive(Clone, Copy, Debug, PartialEq, Eq, Structural)]
pub struct DecodeError;

pub open spec fn opt_chars_view(o: Option<Vec<char>>) -> Option<Seq<char>> {
    match o {
        Some(c) => Some(c@),
        None => None,
    }
}

/// The views of a vector of choice increments, in order.
pub open spec fn choices_views(cs: Seq<ChatCompletionChoiceDelta>) -> Seq<ChoiceDeltaView> {
    cs.map_values(|c: ChatCompletionChoiceDelta| c@)
}

/// Relies on String's FromIterator<char> impl: collecting characters yields
/// the string of exactly those characters, in order.
#[verifier::external_body]
pub(crate) fn chars_to_string(v: &Vec<char>) -> (s: String)
    ensures
        s@ == v@,
{
    v.iter().collect()
}

/// The characters of a string slice, as a vector.
pub fn chars_of_str(s: &str) -> (v: Vec<char>)
    ensures
        v@ == s@,
{
    let n = s.unicode_len();
    let mut v: Vec<char> = Vec::new();
    let mut i: usize = 0;
    while i < n
        invariant
            0 <= i <= n,
            n == s@.len(),
            v@ == s@.take(i as int),
        decreases n - i,
    {
        let c = s.get_char(i);
        v.push(c);
        proof {
            assert(v@ =~= s@.take(i + 1));
        }
        i = i + 1;
    }
    proof {
        assert(v@ =~= s@);
    }
    v
}

/// Which role, if any, a character vector denotes.
fn role_of_chars(v: &Vec<char>) -> (r: Option<ChatCompletionMessageRole>)
    ensures
        r == spec_role_of(v@),
{
    let system = vec!['s', 'y', 's', 't', 'e', 'm'];
    assert(system@ =~= spec_role_chars(ChatCompletionMessageRole::System));
    if chars_eq(v, &system) {
        return Some(ChatCompletionMessageRole::System);
    }
    let user = vec!['u', 's', 'e', 'r'];
    assert(user@ =~= spec_role_chars(ChatCompletionMessageRole::User));
    if chars_eq(v, &user) {
        return Some(ChatCompletionMessageRole::User);
    }
    let assistant = vec!['a', 's', 's', 'i', 's', 't', 'a', 'n', 't'];
    assert(assistant@ =~= spec_role_chars(ChatCompletionMessageRole::Assistant));
    if chars_eq(v, &assistant) {
        return Some(ChatCompletionMessageRole::Assistant);
    }
    None
}

/// Parse a delta object starting at `i`.
pub fn parse_delta(v: &Vec<char>, i: usize) -> (r: Option<(Delta, usize)>)
    requires
        i <= v.len(),
    ensures
        match r {
            Some(p) => {
                &&& i < p.1 <= v.len()
                &&& spec_delta(v@.skip(i as int)) == Some((p.0@, v@.skip(p.1 as int)))
            },
            None => spec_delta(v@.skip(i as int)) is None,
        },
{
    if i == v.len() || v[i] != '{' {
        proof {
            if i < v.len() {
                assert(v@.skip(i as int)[0] == v@[i as int]);
            }
        }
        return None;
    }
    proof {
        assert(v@.skip(i as int)[0] == v@[i as int]);
        lemma_skip_skip(v@, i as int, 1);
    }
    let j0 = skip_ws(v, i + 1);
    if j0 < v.len() && v[j0] == '}' {
        proof {
            assert(v@.skip(j0 as int)[0] == v@[j0 as int]);
            lemma_skip_skip(v@, j0 as int, 1);
        }
        return Some((Delta::EndOfStream {  }, j0 + 1));
    }
    proof {
        if j0 < v.len() {
            assert(v@.skip(j0 as int)[0] == v@[j0 as int]);
        }
    }
    let kw_role_v = vec!['r', 'o', 'l', 'e'];
    assert(kw_role_v@ =~= kw_role());
    let kw_content_v = vec!['c', 'o', 'n', 't', 'e', 'n', 't'];
    assert(kw_content_v@ =~= kw_content());
    let mut cur: usize = j0;
    let mut role: Option<ChatCompletionMessageRole> = None;
    let mut content: Option<Vec<char>> = None;
    loop
        invariant
            i < j0 <= cur <= v.len(),
            kw_role_v@ == kw_role(),
            kw_content_v@ == kw_content(),
            spec_delta(v@.skip(i as int)) == (match spec_delta_pairs(
                v@.skip(cur as int),
                role,
                opt_chars_view(content),
            ) {
                Some((fields, rest)) => match spec_delta_fields(fields.0, fields.1) {
                    Some(d) => Some((d, rest)),
                    None => None,
                },
                None => None,
            }),
        decreases v.len() - cur,
    {
        let (k, a) = match parse_string(v, cur) {
            Some(p) => p,
            None => {
                return None;
            },
        };
        let b = skip_ws(v, a);
        if b == v.len() || v[b] != ':' {
            proof {
                if b < v.len() {
                    assert(v@.skip(b as int)[0] == v@[b as int]);
                }
            }
            return None;
        }
        proof {
            assert(v@.skip(b as int)[0] == v@[b as int]);
            lemma_skip_skip(v@, b as int, 1);
        }
        let c0 = skip_ws(v, b + 1);
        let d: usize;
        if chars_eq(&k, &kw_role_v) {
            if role.is_some() {
                return None;
            }
            let (rv, d1) = match parse_string(v, c0) {
                Some(p) => p,
                None => {
                    return None;
                },
            };
            let ro = match role_of_chars(&rv) {
                Some(ro) => ro,
                None => {
                    return None;
                },
            };
            role = Some(ro);
            d = d1;
        } else if chars_eq(&k, &kw_content_v) {
            if content.is_some() {
                return None;
            }
            let (cv, d1) = match parse_string(v, c0) {
                Some(p) => p,
                None => {
                    return None;
                },
            };
            content = Some(cv);
            d = d1;
        } else {
            return None;
        }
        let e = skip_ws(v, d);
        if e == v.len() {
            return None;
        }
        proof {
            assert(v@.skip(e as int)[0] == v@[e as int]);
            lemma_skip_skip(v@, e as int, 1);
        }
        if v[e] == '}' {
            let out = match (role, content) {
                (Some(r), None) => Delta::Role { role: r },
                (None, Some(c)) => Delta::Content { content: chars_to_string(&c) },
                (None, None) => Delta::EndOfStream {  },
                (Some(_), Some(_)) => {
                    return None;
                },
            };
            return Some((out, e + 1));
        }
        if v[e] != ',' {
            return None;
        }
        cur = skip_ws(v, e + 1);
    }
}

/// Parse a choice object starting at `i`.
pub fn parse_choice(v: &Vec<char>, i: usize) -> (r: Option<(ChatCompletionChoiceDelta, usize)>)
    requires
        i <= v.len(),
    ensures
        match r {
            Some(p) => {
                &&& i < p.1 <= v.len()
                &&& spec_choice(v@.skip(i as int)) == Some((p.0@, v@.skip(p.1 as int)))
            },
            None => spec_choice(v@.skip(i as int)) is None,
        },
{
    if i == v.len() || v[i] != '{' {
        proof {
            if i < v.len() {
                assert(v@.skip(i as int)[0] == v@[i as int]);
            }
        }
        return None;
    }
    proof {
        assert(v@.skip(i as int)[0] == v@[i as int]);
        lemma_skip_skip(v@, i as int, 1);
    }
    let j0 = skip_ws(v, i + 1);
    let kw_delta_v = vec!['d', 'e', 'l', 't', 'a'];
    assert(kw_delta_v@ =~= kw_delta());
    let kw_index_v = vec!['i', 'n', 'd', 'e', 'x'];
    assert(kw_index_v@ =~= kw_index());
    let kw_finish_v = vec!['f', 'i', 'n', 'i', 's', 'h', '_', 'r', 'e', 'a', 's', 'o', 'n'];
    assert(kw_finish_v@ =~= kw_finish_reason());
    let mut cur: usize = j0;
    let mut delta: Option<Delta> = None;
    let mut index: Option<u64> = None;
    let mut finish: Option<Option<Vec<char>>> = None;
    loop
        invariant
            i < j0 <= cur <= v.len(),
            kw_delta_v@ == kw_delta(),
            kw_index_v@ == kw_index(),
            kw_finish_v@ == kw_finish_reason(),
            spec_choice(v@.skip(i as int)) == (match spec_choice_pairs(
                v@.skip(cur as int),
                match delta {
                    Some(d) => Some(d@),
                    None => None,
                },
                index,
                match finish {
                    Some(f) => Some(opt_chars_view(f)),
                    None => None,
                },
            ) {
                Some((fields, rest)) => match (fields.0, fields.1) {
                    (Some(d), Some(n)) => Some(
                        (
                            ChoiceDeltaView {
                                index: n,
                                delta: d,
                                finish_reason: match fields.2 {
                                    Some(f) => f,
                                    None => None,
                                },
                            },
                            rest,
                        ),
                    ),
                    _ => None,
                },
                None => None,
            }),
        decreases v.len() - cur,
    {
        let (k, a) = match parse_string(v, cur) {
            Some(p) => p,
            None => {
                return None;
            },
        };
        let b = skip_ws(v, a);
        if b == v.len() || v[b] != ':' {
            proof {
                if b < v.len() {
                    assert(v@.skip(b as int)[0] == v@[b as int]);
                }
            }
            return None;
        }
        proof {
            assert(v@.skip(b as int)[0] == v@[b as int]);
            lemma_skip_skip(v@, b as int, 1);
        }
        let c0 = skip_ws(v, b + 1);
        let d: usize;
        if chars_eq(&k, &kw_delta_v) {
            if delta.is_some() {
                return None;
            }
            let (dv, d1) = match parse_delta(v, c0) {
                Some(p) => p,
                None => {
                    return None;
                },
            };
            delta = Some(dv);
            d = d1;
        } else if chars_eq(&k, &kw_index_v) {
            if index.is_some() {
                return None;
            }
            let (nv, d1) = match parse_u64(v, c0) {
                Some(p) => p,
                None => {
                    return None;
                },
            };
            index = Some(nv);
            d = d1;
        } else if chars_eq(&k, &kw_finish_v) {
            if finish.is_some() {
                return None;
            }
            if c0 < v.len() && v[c0] == '"' {
                proof {
                    assert(v@.skip(c0 as int)[0] == v@[c0 as int]);
                }
                let (fv, d1) = match parse_string(v, c0) {
                    Some(p) => p,
                    None => {
                        return None;
                    },
                };
                finish = Some(Some(fv));
                d = d1;
            } else {
                proof {
                    if c0 < v.len() {
                        assert(v@.skip(c0 as int)[0] == v@[c0 as int]);
                    }
                }
                let d1 = match parse_null(v, c0) {
                    Some(p) => p,
                    None => {
                        return None;
                    },
                };
                finish = Some(None);
                d = d1;
            }
        } else {
            return None;
        }
        let e = skip_ws(v, d);
        if e == v.len() {
            return None;
        }
        proof {
            assert(v@.skip(e as int)[0] == v@[e as int]);
            lemma_skip_skip(v@, e as int, 1);
        }
        if v[e] == '}' {
            let (df, nf) = match (delta, index) {
                (Some(df), Some(nf)) => (df, nf),
                _ => {
                    return None;
                },
            };
            let fr = match finish {
                Some(Some(f)) => Some(chars_to_string(&f)),
                _ => None,
            };
            let out = ChatCompletionChoiceDelta { index: nf, delta: df, finish_reason: fr };
            return Some((out, e + 1));
        }
        if v[e] != ',' {
            return None;
        }
        cur = skip_ws(v, e + 1);
    }
}

/// Parse the `choices` array starting at `i`.
pub fn parse_choices(v: &Vec<char>, i: usize) -> (r: Option<
    (Vec<ChatCompletionChoiceDelta>, usize),
>)
    requires
        i <= v.len(),
    ensures
        match r {
            Some(p) => {
                &&& i < p.1 <= v.len()
                &&& spec_choices(v@.skip(i as int)) == Some(
                    (choices_views(p.0@), v@.skip(p.1 as int)),
                )
            },
            None => spec_choices(v@.skip(i as int)) is None,
        },
{
    if i == v.len() || v[i] != '[' {
        proof {
            if i < v.len() {
                assert(v@.skip(i as int)[0] == v@[i as int]);
            }
        }
        return None;
    }
    proof {
        assert(v@.skip(i as int)[0] == v@[i as int]);
        lemma_skip_skip(v@, i as int, 1);
    }
    let j0 = skip_ws(v, i + 1);
    let mut out: Vec<ChatCompletionChoiceDelta> = Vec::new();
    if j0 < v.len() && v[j0] == ']' {
        proof {
            assert(v@.skip(j0 as int)[0] == v@[j0 as int]);
            lemma_skip_skip(v@, j0 as int, 1);
            assert(choices_views(out@) =~= Seq::<ChoiceDeltaView>::empty());
        }
        return Some((out, j0 + 1));
    }
    proof {
        if j0 < v.len() {
            assert(v@.skip(j0 as int)[0] == v@[j0 as int]);
        }
        assert(choices_views(out@) =~= Seq::<ChoiceDeltaView>::empty());
    }
    let mut cur: usize = j0;
    loop
        invariant
            i < j0 <= cur <= v.len(),
            spec_choices(v@.skip(i as int)) == spec_choices_items(
                v@.skip(cur as int),
                choices_views(out@),
            ),
        decreases v.len() - cur,
    {
        let (c, a) = match parse_choice(v, cur) {
            Some(p) => p,
            None => {
                return None;
            },
        };
        let e = skip_ws(v, a);
        if e == v.len() {
            return None;
        }
        proof {
            assert(v@.skip(e as int)[0] == v@[e as int]);
            lemma_skip_skip(v@, e as int, 1);
        }
        if v[e] == ']' {
            let ghost old_out = out@;
            out.push(c);
            proof {
                assert(choices_views(out@) =~= choices_views(old_out).push(c@));
            }
            return Some((out, e + 1));
        }
        if v[e] != ',' {
            return None;
        }
        let ghost old_out = out@;
        out.push(c);
        proof {
            assert(choices_views(out@) =~= choices_views(old_out).push(c@));
        }
        cur = skip_ws(v, e + 1);
    }
}

/// Parse an event object starting at `i`.
pub fn parse_event(v: &Vec<char>, i: usize) -> (r: Option<(ChatCompletionEvent, usize)>)
    requires
        i <= v.len(),
    ensures
        match r {
            Some(p) => {
                &&& i < p.1 <= v.len()
                &&& spec_event(v@.skip(i as int)) == Some((p.0@, v@.skip(p.1 as int)))
            },
            None => spec_event(v@.skip(i as int)) is None,
        },
{
    if i == v.len() || v[i] != '{' {
        proof {
            if i < v.len() {
                assert(v@.skip(i as int)[0] == v@[i as int]);
            }
        }
        return None;
    }
    proof {
        assert(v@.skip(i as int)[0] == v@[i as int]);
        lemma_skip_skip(v@, i as int, 1);
    }
    let j0 = skip_ws(v, i + 1);
    let kw_id_v = vec!['i', 'd'];
    assert(kw_id_v@ =~= kw_id());
    let kw_object_v = vec!['o', 'b', 'j', 'e', 'c', 't'];
    assert(kw_object_v@ =~= kw_object());
    let kw_created_v = vec!['c', 'r', 'e', 'a', 't', 'e', 'd'];
    assert(kw_created_v@ =~= kw_created());
    let kw_model_v = vec!['m', 'o', 'd', 'e', 'l'];
    assert(kw_model_v@ =~= kw_model());
    let kw_choices_v = vec!['c', 'h', 'o', 'i', 'c', 'e', 's'];
    assert(kw_choices_v@ =~= kw_choices());
    let mut cur: usize = j0;
    let mut id: Option<Vec<char>> = None;
    let mut object: Option<Vec<char>> = None;
    let mut created: Option<u64> = None;
    let mut model: Option<ModelID> = None;
    let mut choices: Option<Vec<ChatCompletionChoiceDelta>> = None;
    loop
        invariant
            i < j0 <= cur <= v.len(),
            kw_id_v@ == kw_id(),
            kw_object_v@ == kw_object(),
            kw_created_v@ == kw_created(),
            kw_model_v@ == kw_model(),
            kw_choices_v@ == kw_choices(),
            spec_event(v@.skip(i as int)) == (match spec_event_pairs(
                v@.skip(cur as int),
                opt_chars_view(id),
                opt_chars_view(object),
                created,
                model,
                match choices {
                    Some(c) => Some(choices_views(c@)),
                    None => None,
                },
            ) {
                Some((fields, rest)) => match fields {
                    (Some(idv), Some(obv), Some(crv), Some(mov), Some(chv)) => Some(
                        (
                            EventView {
                                id: idv,
                                object: obv,
                                created: crv,
                                model: mov,
                                choices: chv,
                            },
                            rest,
                        ),
                    ),
                    _ => None,
                },
                None => None,
            }),
        decreases v.len() - cur,
    {
        let (k, a) = match parse_string(v, cur) {
            Some(p) => p,
            None => {
                return None;
            },
        };
        let b = skip_ws(v, a);
        if b == v.len() || v[b] != ':' {
            proof {
                if b < v.len() {
                    assert(v@.skip(b as int)[0] == v@[b as int]);
                }
            }
            return None;
        }
        proof {
            assert(v@.skip(b as int)[0] == v@[b as int]);
            lemma_skip_skip(v@, b as int, 1);
        }
        let c0 = skip_ws(v, b + 1);
        let d: usize;
        if chars_eq(&k, &kw_id_v) {
            if id.is_some() {
                return None;
            }
            let (sv, d1) = match parse_string(v, c0) {
                Some(p) => p,
                None => {
                    return None;
                },
            };
            id = Some(sv);
            d = d1;
        } else if chars_eq(&k, &kw_object_v) {
            if object.is_some() {
                return None;
            }
            let (sv, d1) = match parse_string(v, c0) {
                Some(p) => p,
                None => {
                    return None;
                },
            };
            object = Some(sv);
            d = d1;
        } else if chars_eq(&k, &kw_created_v) {
            if created.is_some() {
                return None;
            }
            let (nv, d1) = match parse_u64(v, c0) {
                Some(p) => p,
                None => {
                    return None;
                },
            };
            created = Some(nv);
            d = d1;
        } else if chars_eq(&k, &kw_model_v) {
            if model.is_some() {
                return None;
            }
            let (sv, d1) = match parse_string(v, c0) {
                Some(p) => p,
                None => {
                    return None;
                },
            };
            let m = match crate::models::model_of_chars(&sv) {
                Some(m) => m,
                None => {
                    return None;
                },
            };
            model = Some(m);
            d = d1;
        } else if chars_eq(&k, &kw_choices_v) {
            if choices.is_some() {
                return None;
            }
            let (cv, d1) = match parse_choices(v, c0) {
                Some(p) => p,
                None => {
                    return None;
                },
            };
            choices = Some(cv);
            d = d1;
        } else {
            return None;
        }
        let e = skip_ws(v, d);
        if e == v.len() {
            return None;
        }
        proof {
            assert(v@.skip(e as int)[0] == v@[e as int]);
            lemma_skip_skip(v@, e as int, 1);
        }
        if v[e] == '}' {
            match (id, object, created, model, choices) {
                (Some(idv), Some(obv), Some(crv), Some(mov), Some(chv)) => {
                    let out = ChatCompletionEvent {
                        id: chars_to_string(&idv),
                        object: chars_to_string(&obv),
                        created: crv,
                        model: mov,
                        choices: chv,
                    };
                    return Some((out, e + 1));
                },
                _ => {
                    return None;
                },
            }
        }
        if v[e] != ',' {
            return None;
        }
        cur = skip_ws(v, e + 1);
    }
}

/// Decode one event payload: the characters must hold exactly one event
/// object, surrounded at most by whitespace.
pub fn decode_event(s: &str) -> (r: Result<ChatCompletionEvent, DecodeError>)
    ensures
        match spec_decode_event(s@) {
            Some(ev) => r matches Ok(e) && e@ == ev,
            None => r matches Err(_),
        },
{
    let v = chars_of_str(s);
    proof {
        assert(v@.skip(0) =~= s@);
    }
    let j = skip_ws(&v, 0);
    let (e, k) = match parse_event(&v, j) {
        Some(p) => p,
        None => {
            return Err(DecodeError);
        },
    };
    let m = skip_ws(&v, k);
    if m == v.len() {
        proof {
            assert(v@.skip(m as int).len() == 0);
        }
        Ok(e)
    } else {
        proof {
            assert(v@.skip(m as int).len() > 0);
        }
        Err(DecodeError)
    }
}

} // verus!
