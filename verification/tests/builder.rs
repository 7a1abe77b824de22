use openai::chat::{
    BuildError, ChatCompletion, ChatCompletionBuilder, ChatCompletionMessage,
    ChatCompletionMessageRole,
};
use openai::models::ModelID;
use openai::Usage;

fn hello() -> Vec<ChatCompletionMessage> {
    vec![ChatCompletionMessage {
        role: ChatCompletionMessageRole::User,
        content: "Hello!".to_string(),
        name: None,
    }]
}

#[test]
fn builder_fills_defaults() {
    let request = ChatCompletion::builder(ModelID::Gpt3_5Turbo, hello())
        .build()
        .unwrap();
    assert_eq!(request.model, ModelID::Gpt3_5Turbo);
    assert_eq!(request.messages, hello());
    assert_eq!(request.temperature, None);
    assert_eq!(request.top_p, None);
    assert_eq!(request.n, None);
    assert_eq!(request.stream, Some(true));
    assert!(request.stop.is_empty());
    assert_eq!(request.max_tokens, None);
    assert_eq!(request.presence_penalty, None);
    assert_eq!(request.frequency_penalty, None);
    assert_eq!(request.logit_bias, None);
    assert_eq!(request.user, "");
}

#[test]
fn builder_keeps_given_values() {
    let request = ChatCompletion::builder(ModelID::Gpt3_5Turbo0301, hello())
        .temperature(0)
        .top_p(95)
        .n(2)
        .max_tokens(100)
        .presence_penalty(-150)
        .frequency_penalty(25)
        .stop(vec!["\n".to_string()])
        .user("tester".to_string())
        .build()
        .unwrap();
    assert_eq!(request.temperature, Some(0));
    assert_eq!(request.top_p, Some(95));
    assert_eq!(request.n, Some(2));
    assert_eq!(request.max_tokens, Some(100));
    assert_eq!(request.presence_penalty, Some(-150));
    assert_eq!(request.frequency_penalty, Some(25));
    assert_eq!(request.stop, vec!["\n".to_string()]);
    assert_eq!(request.user, "tester");
}

#[test]
fn incomplete_requests_are_rejected() {
    assert_eq!(
        ChatCompletionBuilder::create_empty().build().unwrap_err(),
        BuildError::MissingModel
    );
    assert_eq!(
        ChatCompletionBuilder::create_empty()
            .model(ModelID::Gpt3_5Turbo)
            .build()
            .unwrap_err(),
        BuildError::MissingMessages
    );
    assert!(ChatCompletionBuilder::create_empty()
        .messages(hello())
        .model(ModelID::Gpt3_5Turbo)
        .build()
        .is_ok());
}

#[test]
fn usage_consistency() {
    let good = Usage {
        prompt_tokens: 9,
        completion_tokens: 12,
        total_tokens: 21,
    };
    assert!(good.is_consistent());
    let bad = Usage {
        prompt_tokens: 9,
        completion_tokens: 12,
        total_tokens: 20,
    };
    assert!(!bad.is_consistent());
}
