use yaoaic::api::{
    conversation_with_choices, ApiError, Choice, Error, FinishReason, Message, Model, OpenAIUri,
    Response, Usage,
};

#[test]
fn max_tokens_per_model() {
    assert_eq!(Model::GPT35Turbo.max_tokens(), 4096);
    assert_eq!(Model::CodeDavinci.max_tokens(), 8001);
}

#[test]
fn default_model_is_gpt35_turbo() {
    assert!(matches!(Model::default(), Model::GPT35Turbo));
    assert_eq!(Model::default().max_tokens(), 4096);
}

#[test]
fn default_message_is_an_empty_user_message() {
    let m = Message::default();
    assert_eq!(m.role, "user");
    assert_eq!(m.content, "");
}

#[test]
fn chat_completion_uri() {
    assert_eq!(
        OpenAIUri::ChatCompletion.as_uri(),
        "https://api.openai.com/v1/chat/completions"
    );
    assert!(matches!(OpenAIUri::default(), OpenAIUri::ChatCompletion));
}

#[test]
fn cli_model_maps_onto_api_model() {
    assert!(matches!(
        yaoaic::cli::Model::GPT35Turbo.as_yaoic_model(),
        Model::GPT35Turbo
    ));
    assert!(matches!(
        yaoaic::cli::Model::CodeDavinci.as_yaoic_model(),
        Model::CodeDavinci
    ));
    assert!(matches!(yaoaic::cli::Model::default(), yaoaic::cli::Model::GPT35Turbo));
}

#[test]
fn conversation_extends_with_every_choice() {
    let sent = vec![Message {
        role: "user".to_string(),
        content: "hello".to_string(),
    }];
    let response = Response {
        id: "id-1".to_string(),
        object: "chat.completion".to_string(),
        created: 7,
        usage: Usage {
            prompt_tokens: 1,
            completion_tokens: 2,
            total_tokens: 3,
        },
        choices: vec![
            Choice {
                message: Message {
                    role: "assistant".to_string(),
                    content: "hi".to_string(),
                },
                finish_reason: FinishReason::Stop,
                index: 0,
            },
            Choice {
                message: Message {
                    role: "assistant".to_string(),
                    content: "there".to_string(),
                },
                finish_reason: FinishReason::Completion,
                index: 1,
            },
        ],
        context: None,
    };
    let all = conversation_with_choices(sent, response.choices);
    assert_eq!(all.len(), 3);
    assert_eq!(all[0].content, "hello");
    assert_eq!(all[1].content, "hi");
    assert_eq!(all[2].content, "there");
    assert_eq!(all[1].role, "assistant");
}

#[test]
fn describe_reports_an_api_error_in_one_line() {
    let e = Error::Api(ApiError {
        message: "bad request".to_string(),
        error_type: "invalid_request_error".to_string(),
        param: None,
        code: "400".to_string(),
    });
    assert_eq!(
        e.describe(),
        "Error response: 400 invalid_request_error: bad request"
    );
    let u = Error::Unknown("connection reset".to_string());
    assert_eq!(u.describe(), "connection reset");
}
