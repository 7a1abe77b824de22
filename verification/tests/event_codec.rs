use openai::chat::{
    ChatCompletionChoiceDelta, ChatCompletionEvent, ChatCompletionMessageRole, Delta,
};
use openai::codec::decode_event;
use openai::encode::encode_event;
use openai::models::ModelID;

#[test]
fn test_event_deserialization() {
    let role = r#"{
            "id": "chatcmpl-6wBU7HGxEXqdShNC81ZlfkOLDM0MF",
            "object": "chat.completion.chunk",
            "created": 1679325191,
            "model": "gpt-3.5-turbo",
            "choices": [{"delta": {"role": "assistant"}, "index": 0, "finish_reason":null}]
        }"#;
    let content = r#"{
            "id": "chatcmpl-6wBU7HGxEXqdShNC81ZlfkOLDM0MF",
            "object": "chat.completion.chunk",
            "created": 1679325191,
            "model": "gpt-3.5-turbo",
            "choices": [{"delta": {"content": "foobar"}, "index": 0, "finish_reason":null}]
        }"#;
    let end_of_stream = r#"{
            "id": "chatcmpl-6wBU7HGxEXqdShNC81ZlfkOLDM0MF",
            "object": "chat.completion.chunk",
            "created": 1679325191,
            "model": "gpt-3.5-turbo",
            "choices": [{"delta": {}, "index": 0, "finish_reason": "stop"}]
        }"#;

    let role: ChatCompletionEvent = decode_event(role).unwrap();
    let content: ChatCompletionEvent = decode_event(content).unwrap();
    let end_of_stream: ChatCompletionEvent = decode_event(end_of_stream).unwrap();

    assert_eq!(
        role,
        ChatCompletionEvent {
            id: "chatcmpl-6wBU7HGxEXqdShNC81ZlfkOLDM0MF".into(),
            object: "chat.completion.chunk".into(),
            created: 1679325191,
            model: ModelID::Gpt3_5Turbo,
            choices: vec![ChatCompletionChoiceDelta {
                index: 0,
                delta: Delta::Role {
                    role: ChatCompletionMessageRole::Assistant
                },
                finish_reason: None
            }]
        }
    );
    assert_eq!(
        content,
        ChatCompletionEvent {
            id: "chatcmpl-6wBU7HGxEXqdShNC81ZlfkOLDM0MF".into(),
            object: "chat.completion.chunk".into(),
            created: 1679325191,
            model: ModelID::Gpt3_5Turbo,
            choices: vec![ChatCompletionChoiceDelta {
                index: 0,
                delta: Delta::Content {
                    content: "foobar".into()
                },
                finish_reason: None
            }]
        }
    );
    assert_eq!(
        end_of_stream,
        ChatCompletionEvent {
            id: "chatcmpl-6wBU7HGxEXqdShNC81ZlfkOLDM0MF".into(),
            object: "chat.completion.chunk".into(),
            created: 1679325191,
            model: ModelID::Gpt3_5Turbo,
            choices: vec![ChatCompletionChoiceDelta {
                index: 0,
                delta: Delta::EndOfStream {},
                finish_reason: Some("stop".into())
            }]
        }
    );
}

fn sample_event() -> ChatCompletionEvent {
    ChatCompletionEvent {
        id: "chatcmpl-1".into(),
        object: "chat.completion.chunk".into(),
        created: 1679325191,
        model: ModelID::Gpt3_5Turbo,
        choices: vec![
            ChatCompletionChoiceDelta {
                index: 0,
                delta: Delta::Role {
                    role: ChatCompletionMessageRole::Assistant,
                },
                finish_reason: None,
            },
            ChatCompletionChoiceDelta {
                index: 1,
                delta: Delta::Content {
                    content: "a \"quoted\"\nline\tand \\slash".into(),
                },
                finish_reason: Some("stop".into()),
            },
        ],
    }
}

#[test]
fn round_trip_preserves_variants_and_fields() {
    let event = sample_event();
    let text = encode_event(&event);
    let back = decode_event(&text).unwrap();
    assert_eq!(back, event);
}

#[test]
fn encoding_is_canonical() {
    let event = ChatCompletionEvent {
        id: "x".into(),
        object: "chat.completion.chunk".into(),
        created: 42,
        model: ModelID::Gpt3_5Turbo,
        choices: vec![ChatCompletionChoiceDelta {
            index: 0,
            delta: Delta::EndOfStream {},
            finish_reason: Some("stop".into()),
        }],
    };
    assert_eq!(
        encode_event(&event),
        "{\"id\":\"x\",\"object\":\"chat.completion.chunk\",\"created\":42,\
         \"model\":\"gpt-3.5-turbo\",\"choices\":[{\"delta\":{},\"index\":0,\
         \"finish_reason\":\"stop\"}]}"
    );
}

#[test]
fn keys_decode_in_any_order() {
    let text = r#"{"choices":[{"finish_reason":null,"index":7,"delta":{"content":"hi"}}],
        "model":"gpt-3.5-turbo-0301","created":5,"object":"chat.completion.chunk","id":"a"}"#;
    let event = decode_event(text).unwrap();
    assert_eq!(event.model, ModelID::Gpt3_5Turbo0301);
    assert_eq!(event.created, 5);
    assert_eq!(event.choices.len(), 1);
    assert_eq!(event.choices[0].index, 7);
    assert_eq!(
        event.choices[0].delta,
        Delta::Content {
            content: "hi".into()
        }
    );
}

#[test]
fn string_escapes_decode() {
    let text = r#"{"id":"a","object":"b","created":0,"model":"gpt-3.5-turbo","choices":[{"delta":{"content":"q\"w\\e\/r\n\r\t\b\f"},"index":0,"finish_reason":null}]}"#;
    let event = decode_event(text).unwrap();
    assert_eq!(
        event.choices[0].delta,
        Delta::Content {
            content: "q\"w\\e/r\n\r\t\u{8}\u{c}".into()
        }
    );
}

#[test]
fn created_takes_the_largest_timestamp() {
    let text = r#"{"id":"a","object":"b","created":18446744073709551615,"model":"gpt-3.5-turbo","choices":[]}"#;
    assert_eq!(decode_event(text).unwrap().created, u64::MAX);
}

#[test]
fn malformed_events_are_errors() {
    // an out-of-range timestamp
    assert!(decode_event(r#"{"id":"a","object":"b","created":18446744073709551616,"model":"gpt-3.5-turbo","choices":[]}"#)
    .is_err());
    // a leading zero
    assert!(decode_event(
        r#"{"id":"a","object":"b","created":01,"model":"gpt-3.5-turbo","choices":[]}"#
    )
    .is_err());
    // an unknown model
    assert!(decode_event(
        r#"{"id":"a","object":"b","created":1,"model":"gpt-9","choices":[]}"#
    )
    .is_err());
    // a missing mandatory field
    assert!(decode_event(r#"{"id":"a","object":"b","created":1,"model":"gpt-3.5-turbo"}"#).is_err());
    // a duplicate field
    assert!(decode_event(
        r#"{"id":"a","id":"b","object":"b","created":1,"model":"gpt-3.5-turbo","choices":[]}"#
    )
    .is_err());
    // an unknown field
    assert!(decode_event(r#"{"id":"a","object":"b","created":1,"model":"gpt-3.5-turbo","choices":[],"extra":1}"#)
    .is_err());
    // trailing text after the object
    assert!(decode_event(r#"{"id":"a","object":"b","created":1,"model":"gpt-3.5-turbo","choices":[]} x"#)
    .is_err());
    // a delta carrying both a role and a content field
    assert!(decode_event(r#"{"id":"a","object":"b","created":1,"model":"gpt-3.5-turbo","choices":[{"delta":{"role":"user","content":"x"},"index":0,"finish_reason":null}]}"#)
    .is_err());
    // a choice without an index
    assert!(decode_event(r#"{"id":"a","object":"b","created":1,"model":"gpt-3.5-turbo","choices":[{"delta":{}}]}"#)
    .is_err());
    // not JSON at all
    assert!(decode_event("[DONE]").is_err());
}

#[test]
fn empty_choices_decode() {
    let text = r#"{"id":"a","object":"b","created":1,"model":"text-embedding-ada-002","choices":[]}"#;
    let event = decode_event(text).unwrap();
    assert_eq!(event.choices.len(), 0);
    assert_eq!(event.model, ModelID::TextEmbeddingAda002);
}
