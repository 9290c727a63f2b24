//! The data the chat-completion API exchanges: messages, models, responses
//! and the client's error taxonomy. Sending a query over the network is the
//! caller's part; the shapes and the rules on them live here.

use vstd::prelude::*;
use vstd::string::StringExecFns;

verus! {

/// A message sent to the API.
#[derive(Debug, Clone)]
pub struct Message {
    /// The role of the message.
    pub role: String,
    /// The content of the message.
    pub content: String,
}

impl Default for Message {
    /// A fresh user message with no content yet.
    fn default() -> (r: Message)
        ensures
            r.role@ == "user"@,
            r.content@ == Seq::<char>::empty(),
    {
        Message { role: "user".to_owned(), content: String::new() }
    }
}

/// The model to use.
#[derive(Debug, Clone)]
pub enum Model {
    /// The default model.
    GPT35Turbo,
    /// The code-davinci model.
    CodeDavinci,
}

impl Default for Model {
    fn default() -> (r: Model)
        ensures
            r is GPT35Turbo,
    {
        Model::GPT35Turbo
    }
}

impl Model {
    /// The maximum number of tokens the model can handle.
    pub open spec fn spec_max_tokens(&self) -> usize {
        match self {
            Model::GPT35Turbo => 4096,
            Model::CodeDavinci => 8001,
        }
    }

    /// The maximum number of tokens the model can handle.
    pub fn max_tokens(&self) -> (r: usize)
        ensures
            r == self.spec_max_tokens(),
    {
        match self {
            Model::GPT35Turbo => 4096,
            Model::CodeDavinci => 8001,
        }
    }
}

/// The usage of the API.
#[derive(Debug, Clone)]
pub struct Usage {
    /// The number of tokens used by the prompt.
    pub prompt_tokens: usize,
    /// The number of tokens used by the completion.
    pub completion_tokens: usize,
    /// The total number of tokens used.
    pub total_tokens: usize,
}

/// The response from the API.
#[derive(Debug, Clone)]
pub struct Response {
    /// The ID of the response.
    pub id: String,
    /// The object of the response.
    pub object: String,
    /// The time the response was created.
    pub created: u32,
    /// The usage of the API.
    pub usage: Usage,
    /// The choices of the response.
    pub choices: Vec<Choice>,
    /// The context of the response.
    pub context: Option<String>,
}

/// Why the API stopped generating tokens.
#[derive(Debug, Clone, PartialEq, Eq)]
pub enum FinishReason {
    /// Generation reached the maximum length or a stop token.
    Stop,
    /// Generation exceeded the time allowed for a response.
    Timeout,
    /// The response completed the prompt.
    Completion,
    /// An error arose while generating the response.
    ModelError,
    /// An error arose while processing the request.
    ApiError,
}

/// A choice of the response.
#[derive(Debug, Clone)]
pub struct Choice {
    /// The message of the choice.
    pub message: Message,
    /// The reason the choice was finished.
    pub finish_reason: FinishReason,
    /// The index of the choice.
    pub index: usize,
}

/// The endpoints the client can speak to.
#[derive(Debug, Clone)]
pub enum OpenAIUri {
    ChatCompletion,
}

impl Default for OpenAIUri {
    fn default() -> (r: OpenAIUri)
        ensures
            r is ChatCompletion,
    {
        OpenAIUri::ChatCompletion
    }
}

impl OpenAIUri {
    /// The endpoint's address.
    pub fn as_uri(&self) -> (r: String)
        ensures
            r@ == "https://api.openai.com/v1/chat/completions"@,
    {
        match self {
            OpenAIUri::ChatCompletion => "https://api.openai.com/v1/chat/completions".to_owned(),
        }
    }
}

/// What a query can fail with.
#[derive(Debug, Clone)]
pub enum Error {
    /// The API answered with a structured error.
    Api(ApiError),
    /// Anything else, with its report.
    Unknown(String),
}

/// The report `Error::describe` gives for a structured API error.
pub open spec fn api_error_report(e: ApiError) -> Seq<char> {
    "Error response: "@ + e.code@ + " "@ + e.error_type@ + ": "@ + e.message@
}

impl Error {
    /// The error as one line of text.
    pub fn describe(&self) -> (r: String)
        ensures
            match self {
                Error::Api(e) => r@ == api_error_report(*e),
                Error::Unknown(a) => r@ == a@,
            },
    {
        match self {
            Error::Api(e) => {
                let mut line = "Error response: ".to_owned();
                line.append(e.code.as_str());
                line.append(" ");
                line.append(e.error_type.as_str());
                line.append(": ");
                line.append(e.message.as_str());
                line
            },
            Error::Unknown(a) => a.clone(),
        }
    }
}

/// A structured error answered by the API.
#[derive(Debug, Clone)]
pub struct ApiError {
    pub message: String,
    pub error_type: String,
    pub param: Option<String>,
    pub code: String,
}

/// The conversation after an exchange: the messages that were sent, followed
/// by the message of every choice the response carried, in order.
pub fn conversation_with_choices(messages: Vec<Message>, choices: Vec<Choice>) -> (r: Vec<Message>)
    ensures
        r@ == messages@ + choices@.map_values(|c: Choice| c.message),
{
    let ghost all = choices@;
    let mut r = messages;
    let mut rest = choices;
    while rest.len() > 0
        invariant
            rest@.len() <= all.len(),
            rest@ == all.skip(all.len() - rest@.len()),
            r@ == messages@ + all.take(all.len() - rest@.len()).map_values(
                |c: Choice| c.message,
            ),
        decreases rest@.len(),
    {
        let ghost k = all.len() - rest@.len();
        let c = rest.remove(0);
        proof {
            assert(c == all[k]);
            assert(rest@ =~= all.skip(k + 1));
            assert(all.take(k + 1).map_values(|c: Choice| c.message) =~= all.take(
                k as int,
            ).map_values(|c: Choice| c.message).push(all[k].message));
        }
        r.push(c.message);
    }
    proof {
        assert(all.take(all.len() as int) =~= all);
        assert(r@ =~= messages@ + all.map_values(|c: Choice| c.message));
    }
    r
}

} // verus!
