use openai::chat::{ChatCompletionMessageRole, Delta};
use openai::stream::{
    assemble, process_events, process_raw_event, RawStreamEvent, StreamError, StreamItem,
    StreamStep,
};

fn event_text(index: u64, delta: &str, finish: &str) -> String {
    format!(
        "{{\"id\":\"chatcmpl-1\",\"object\":\"chat.completion.chunk\",\"created\":1,\
         \"model\":\"gpt-3.5-turbo\",\"choices\":[{{\"delta\":{delta},\"index\":{index},\
         \"finish_reason\":{finish}}}]}}"
    )
}

#[test]
fn openings_are_skipped() {
    assert!(matches!(
        process_raw_event(RawStreamEvent::Opened),
        StreamStep::Skip
    ));
}

#[test]
fn sentinel_ends_the_stream() {
    assert!(matches!(
        process_raw_event(RawStreamEvent::Message("[DONE]".into())),
        StreamStep::End
    ));
}

#[test]
fn transport_errors_are_distinguishable() {
    let step = process_raw_event(RawStreamEvent::TransportError("connection reset".into()));
    match step {
        StreamStep::Fail(StreamError::Transport(m)) => assert_eq!(m, "connection reset"),
        _ => panic!("expected a transport error"),
    }
}

#[test]
fn decodable_messages_are_emitted() {
    let text = event_text(0, "{\"content\":\"hi\"}", "null");
    match process_raw_event(RawStreamEvent::Message(text)) {
        StreamStep::Emit(e) => assert_eq!(
            e.choices[0].delta,
            Delta::Content {
                content: "hi".into()
            }
        ),
        _ => panic!("expected an emitted event"),
    }
}

#[test]
fn malformed_event_then_valid_event() {
    let items = process_events(vec![
        RawStreamEvent::Message("{not json".into()),
        RawStreamEvent::Message(event_text(0, "{\"content\":\"ok\"}", "null")),
    ]);
    assert_eq!(items.len(), 2);
    match &items[0] {
        StreamItem::Error(StreamError::Decode(d)) => assert_eq!(d, "{not json"),
        _ => panic!("expected a decode error first"),
    }
    match &items[1] {
        StreamItem::Event(e) => assert_eq!(
            e.choices[0].delta,
            Delta::Content {
                content: "ok".into()
            }
        ),
        _ => panic!("expected the valid event second"),
    }
}

#[test]
fn nothing_after_the_sentinel_is_produced() {
    let items = process_events(vec![
        RawStreamEvent::Opened,
        RawStreamEvent::Message(event_text(0, "{\"content\":\"first\"}", "null")),
        RawStreamEvent::Message("[DONE]".into()),
        RawStreamEvent::Message(event_text(0, "{\"content\":\"after\"}", "null")),
        RawStreamEvent::TransportError("late".into()),
    ]);
    assert_eq!(items.len(), 1);
    assert!(matches!(&items[0], StreamItem::Event(_)));
}

#[test]
fn interleaved_candidates_do_not_mix() {
    let raws = vec![
        RawStreamEvent::Message(event_text(0, "{\"role\":\"assistant\"}", "null")),
        RawStreamEvent::Message(event_text(1, "{\"role\":\"assistant\"}", "null")),
        RawStreamEvent::Message(event_text(0, "{\"content\":\"Hello\"}", "null")),
        RawStreamEvent::Message(event_text(1, "{\"content\":\"Bye\"}", "null")),
        RawStreamEvent::Message(event_text(0, "{\"content\":\" world\"}", "null")),
        RawStreamEvent::Message(event_text(0, "{}", "\"stop\"")),
        RawStreamEvent::Message(event_text(1, "{}", "\"length\"")),
        RawStreamEvent::Message("[DONE]".into()),
    ];
    let mut events = Vec::new();
    for item in process_events(raws) {
        match item {
            StreamItem::Event(e) => events.push(e),
            StreamItem::Error(_) => panic!("no errors expected"),
        }
    }
    let zero = assemble(&events, 0);
    assert_eq!(zero.role, Some(ChatCompletionMessageRole::Assistant));
    assert_eq!(zero.content, "Hello world");
    assert_eq!(zero.finish_reason, Some("stop".to_string()));
    let one = assemble(&events, 1);
    assert_eq!(one.content, "Bye");
    assert_eq!(one.finish_reason, Some("length".to_string()));
    let other = assemble(&events, 2);
    assert_eq!(other.role, None);
    assert_eq!(other.content, "");
    assert_eq!(other.finish_reason, None);
}

#[test]
fn reassembly_concatenates_in_arrival_order() {
    let raws = vec![
        RawStreamEvent::Message(event_text(0, "{\"role\":\"assistant\"}", "null")),
        RawStreamEvent::Message(event_text(0, "{\"content\":\"a\"}", "null")),
        RawStreamEvent::Message(event_text(0, "{\"content\":\"b\"}", "null")),
        RawStreamEvent::Message(event_text(0, "{\"content\":\"c\"}", "null")),
        RawStreamEvent::Message(event_text(0, "{}", "\"stop\"")),
    ];
    let mut events = Vec::new();
    for item in process_events(raws) {
        match item {
            StreamItem::Event(e) => events.push(e),
            StreamItem::Error(_) => panic!("no errors expected"),
        }
    }
    let choice = assemble(&events, 0);
    assert_eq!(choice.content, "abc");
}
