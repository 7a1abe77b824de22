//! The typed shapes of a chat conversation: messages, requests assembled by a
//! builder, complete responses, and the incremental delta events of a
//! streamed response.

use vstd::prelude::*;

use crate::models::ModelID;
use crate::Usage;

verus! {

/// The author of a message.
#[derive(Clone, Copy, Debug, PartialEq, Eq, Structural)]
pub enum ChatCompletionMessageRole {
    System,
    User,
    Assistant,
}

/// One message of a conversation.
#[derive(Clone, Debug, PartialEq)]
pub struct ChatCompletionMessage {
    /// The role of the author of this message.
    pub role: ChatCompletionMessageRole,
    /// The contents of the message.
    pub content: String,
    /// The name of the user in a multi-user chat.
    pub name: Option<String>,
}

/// The mathematical value of a message.
pub struct MessageView {
    pub role: ChatCompletionMessageRole,
    pub content: Seq<char>,
    pub name: Option<Seq<char>>,
}

impl View for ChatCompletionMessage {
    type V = MessageView;

    open spec fn view(&self) -> MessageView {
        MessageView {
            role: self.role,
            content: self.content@,
            name: match self.name {
                Some(n) => Some(n@),
                None => None,
            },
        }
    }
}

/// One increment of a streamed choice: a role announcement, a fragment of
/// content, or the empty delta that accompanies a terminal event.
#[derive(Clone, Debug, PartialEq)]
pub enum Delta {
    Role { role: ChatCompletionMessageRole },
    Content { content: String },
    EndOfStream {},
}

/// The mathematical value of a delta.
pub enum DeltaView {
    Role(ChatCompletionMessageRole),
    Content(Seq<char>),
    EndOfStream,
}

impl View for Delta {
    type V = DeltaView;

    open spec fn view(&self) -> DeltaView {
        match self {
            Delta::Role { role } => DeltaView::Role(*role),
            Delta::Content { content } => DeltaView::Content(content@),
            Delta::EndOfStream {  } => DeltaView::EndOfStream,
        }
    }
}

/// One choice's increment inside a streamed event.
#[derive(Clone, Debug, PartialEq)]
pub struct ChatCompletionChoiceDelta {
    pub index: u64,
    pub delta: Delta,
    pub finish_reason: Option<String>,
}

/// The mathematical value of a choice increment.
pub struct ChoiceDeltaView {
    pub index: u64,
    pub delta: DeltaView,
    pub finish_reason: Option<Seq<char>>,
}

impl View for ChatCompletionChoiceDelta {
    type V = ChoiceDeltaView;

    open spec fn view(&self) -> ChoiceDeltaView {
        ChoiceDeltaView {
            index: self.index,
            delta: self.delta@,
            finish_reason: match self.finish_reason {
                Some(f) => Some(f@),
                None => None,
            },
        }
    }
}

/// One streamed event: a set of choice increments sharing an id.
#[derive(Clone, Debug, PartialEq)]
pub struct ChatCompletionEvent {
    pub id: String,
    pub object: String,
    pub created: u64,
    pub model: ModelID,
    pub choices: Vec<ChatCompletionChoiceDelta>,
}

/// The mathematical value of a streamed event.
pub struct EventView {
    pub id: Seq<char>,
    pub object: Seq<char>,
    pub created: u64,
    pub model: ModelID,
    pub choices: Seq<ChoiceDeltaView>,
}

impl View for ChatCompletionEvent {
    type V = EventView;

    open spec fn view(&self) -> EventView {
        EventView {
            id: self.id@,
            object: self.object@,
            created: self.created,
            model: self.model,
            choices: self.choices@.map_values(|c: ChatCompletionChoiceDelta| c@),
        }
    }
}

/// One complete choice of a non-streaming response.
#[derive(Clone, Debug, PartialEq)]
pub struct ChatCompletionChoice {
    pub index: u64,
    pub message: ChatCompletionMessage,
    pub finish_reason: String,
}

/// A complete non-streaming response.
#[derive(Clone, Debug, PartialEq)]
pub struct ChatCompletion {
    pub id: String,
    pub object: String,
    pub created: u64,
    pub model: ModelID,
    pub choices: Vec<ChatCompletionChoice>,
    pub usage: Option<Usage>,
}

/// A validated request: the model and the conversation are mandatory, every
/// sampling control is optional and omitted from the payload when unset.
/// Sampling controls that the remote service takes as small decimals are held
/// in hundredths, so a `temperature` of 0.7 is stored as 70.
#[derive(Clone, Debug, PartialEq)]
pub struct ChatCompletionRequest {
    /// ID of the model to use.
    pub model: ModelID,
    /// The messages to generate chat completions for, in order.
    pub messages: Vec<ChatCompletionMessage>,
    /// Sampling temperature, in hundredths.
    pub temperature: Option<u32>,
    /// Nucleus-sampling threshold, in hundredths.
    pub top_p: Option<u32>,
    /// How many chat completion choices to generate for each input message.
    pub n: Option<u8>,
    /// Whether partial message deltas are to be streamed.
    pub stream: Option<bool>,
    /// Up to 4 sequences where the service will stop generating.
    pub stop: Vec<String>,
    /// The maximum number of tokens allowed for the generated answer.
    pub max_tokens: Option<u64>,
    /// Presence penalty, in hundredths.
    pub presence_penalty: Option<i32>,
    /// Frequency penalty, in hundredths.
    pub frequency_penalty: Option<i32>,
    /// Per-token logit bias, keyed by token id, in hundredths.
    pub logit_bias: Option<Vec<(String, i32)>>,
    /// A unique identifier representing the end-user; omitted when empty.
    pub user: String,
}

/// A request under construction: every field starts unset.
#[derive(Clone, Debug, PartialEq)]
pub struct ChatCompletionBuilder {
    pub model: Option<ModelID>,
    pub messages: Option<Vec<ChatCompletionMessage>>,
    pub temperature: Option<u32>,
    pub top_p: Option<u32>,
    pub n: Option<u8>,
    pub stop: Vec<String>,
    pub max_tokens: Option<u64>,
    pub presence_penalty: Option<i32>,
    pub frequency_penalty: Option<i32>,
    pub logit_bias: Option<Vec<(String, i32)>>,
    pub user: String,
}

/// Which mandatory field an incomplete request is missing.
#[derive(Clone, Copy, Debug, PartialEq, Eq, Structural)]
pub enum BuildError {
    MissingModel,
    MissingMessages,
}

impl ChatCompletionBuilder {
    /// A builder with nothing set.
    pub fn create_empty() -> (r: ChatCompletionBuilder)
        ensures
            r.model is None,
            r.messages is None,
            r.temperature is None,
            r.top_p is None,
            r.n is None,
            r.stop@ =~= Seq::<String>::empty(),
            r.max_tokens is None,
            r.presence_penalty is None,
            r.frequency_penalty is None,
            r.logit_bias is None,
            r.user@ =~= Seq::<char>::empty(),
    {
        ChatCompletionBuilder {
            model: None,
            messages: None,
            temperature: None,
            top_p: None,
            n: None,
            stop: Vec::new(),
            max_tokens: None,
            presence_penalty: None,
            frequency_penalty: None,
            logit_bias: None,
            user: String::new(),
        }
    }

    pub fn model(self, model: ModelID) -> (r: ChatCompletionBuilder)
        ensures
            r == (ChatCompletionBuilder { model: Some(model), ..self }),
    {
        ChatCompletionBuilder { model: Some(model), ..self }
    }

    pub fn messages(self, messages: Vec<ChatCompletionMessage>) -> (r: ChatCompletionBuilder)
        ensures
            r == (ChatCompletionBuilder { messages: Some(messages), ..self }),
    {
        ChatCompletionBuilder { messages: Some(messages), ..self }
    }

    /// Sampling temperature, in hundredths: 70 stands for 0.7.
    pub fn temperature(self, temperature: u32) -> (r: ChatCompletionBuilder)
        ensures
            r == (ChatCompletionBuilder { temperature: Some(temperature), ..self }),
    {
        ChatCompletionBuilder { temperature: Some(temperature), ..self }
    }

    /// Nucleus-sampling threshold, in hundredths.
    pub fn top_p(self, top_p: u32) -> (r: ChatCompletionBuilder)
        ensures
            r == (ChatCompletionBuilder { top_p: Some(top_p), ..self }),
    {
        ChatCompletionBuilder { top_p: Some(top_p), ..self }
    }

    pub fn n(self, n: u8) -> (r: ChatCompletionBuilder)
        ensures
            r == (ChatCompletionBuilder { n: Some(n), ..self }),
    {
        ChatCompletionBuilder { n: Some(n), ..self }
    }

    pub fn stop(self, stop: Vec<String>) -> (r: ChatCompletionBuilder)
        ensures
            r == (ChatCompletionBuilder { stop, ..self }),
    {
        ChatCompletionBuilder { stop, ..self }
    }

    pub fn max_tokens(self, max_tokens: u64) -> (r: ChatCompletionBuilder)
        ensures
            r == (ChatCompletionBuilder { max_tokens: Some(max_tokens), ..self }),
    {
        ChatCompletionBuilder { max_tokens: Some(max_tokens), ..self }
    }

    /// Presence penalty, in hundredths: -150 stands for -1.5.
    pub fn presence_penalty(self, presence_penalty: i32) -> (r: ChatCompletionBuilder)
        ensures
            r == (ChatCompletionBuilder { presence_penalty: Some(presence_penalty), ..self }),
    {
        ChatCompletionBuilder { presence_penalty: Some(presence_penalty), ..self }
    }

    /// Frequency penalty, in hundredths.
    pub fn frequency_penalty(self, frequency_penalty: i32) -> (r: ChatCompletionBuilder)
        ensures
            r == (ChatCompletionBuilder { frequency_penalty: Some(frequency_penalty), ..self }),
    {
        ChatCompletionBuilder { frequency_penalty: Some(frequency_penalty), ..self }
    }

    /// Per-token logit bias, keyed by token id, in hundredths.
    pub fn logit_bias(self, logit_bias: Vec<(String, i32)>) -> (r: ChatCompletionBuilder)
        ensures
            r == (ChatCompletionBuilder { logit_bias: Some(logit_bias), ..self }),
    {
        ChatCompletionBuilder { logit_bias: Some(logit_bias), ..self }
    }

    pub fn user(self, user: String) -> (r: ChatCompletionBuilder)
        ensures
            r == (ChatCompletionBuilder { user, ..self }),
    {
        ChatCompletionBuilder { user, ..self }
    }

    /// Close the builder.  A request is produced exactly when both mandatory
    /// fields were given; the streaming flag is always set on the produced
    /// request, every other unset control stays omitted.
    pub fn build(self) -> (r: Result<ChatCompletionRequest, BuildError>)
        ensures
            self.model is None ==> r == Err::<ChatCompletionRequest, BuildError>(
                BuildError::MissingModel,
            ),
            self.model is Some && self.messages is None ==> r == Err::<
                ChatCompletionRequest,
                BuildError,
            >(BuildError::MissingMessages),
            self.model is Some && self.messages is Some ==> (r matches Ok(req) && req
                == (ChatCompletionRequest {
                model: self.model->0,
                messages: self.messages->0,
                temperature: self.temperature,
                top_p: self.top_p,
                n: self.n,
                stream: Some(true),
                stop: self.stop,
                max_tokens: self.max_tokens,
                presence_penalty: self.presence_penalty,
                frequency_penalty: self.frequency_penalty,
                logit_bias: self.logit_bias,
                user: self.user,
            })),
    {
        let ChatCompletionBuilder {
            model,
            messages,
            temperature,
            top_p,
            n,
            stop,
            max_tokens,
            presence_penalty,
            frequency_penalty,
            logit_bias,
            user,
        } = self;
        let model = match model {
            Some(m) => m,
            None => {
                return Err(BuildError::MissingModel);
            },
        };
        let messages = match messages {
            Some(m) => m,
            None => {
                return Err(BuildError::MissingMessages);
            },
        };
        Ok(
            ChatCompletionRequest {
                model,
                messages,
                temperature,
                top_p,
                n,
                stream: Some(true),
                stop,
                max_tokens,
                presence_penalty,
                frequency_penalty,
                logit_bias,
                user,
            },
        )
    }
}

impl ChatCompletion {
    /// Start a request from its two mandatory inputs.
    pub fn builder(model: ModelID, messages: Vec<ChatCompletionMessage>) -> (r:
        ChatCompletionBuilder)
        ensures
            r.model == Some(model),
            r.messages == Some(messages),
            r.temperature is None,
            r.top_p is None,
            r.n is None,
            r.stop@ =~= Seq::<String>::empty(),
            r.max_tokens is None,
            r.presence_penalty is None,
            r.frequency_penalty is None,
            r.logit_bias is None,
            r.user@ =~= Seq::<char>::empty(),
    {
        ChatCompletionBuilder::create_empty().model(model).messages(messages)
    }
}

} // verus!
