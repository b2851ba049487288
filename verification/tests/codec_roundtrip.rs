use open_responses::codec::parse_args;
use open_responses::dispatcher::create_tools;
use open_responses::request::{parse_request, serialize_request, RequestBody, ToolsSection};

fn plain_body(model: &str, input: &str) -> RequestBody {
    RequestBody {
        model: model.to_string(),
        input: input.to_string(),
        instructions: None,
        tools: None,
        reasoning_effort: None,
    }
}

#[test]
fn minimal_body_serializes_exactly() {
    let body = plain_body("m", "hi");
    assert_eq!(serialize_request(&body), "{\"model\":\"m\",\"input\":\"hi\"}");
}

#[test]
fn tools_body_serializes_exactly() {
    let body = RequestBody {
        model: "m".to_string(),
        input: "t".to_string(),
        instructions: None,
        tools: Some(ToolsSection {
            tools: create_tools(),
            max_tool_calls: 10,
            tool_choice: "auto".to_string(),
        }),
        reasoning_effort: None,
    };
    let expected = "{\"model\":\"m\",\"input\":\"t\",\"tools\":[{\"type\":\"function\",\"function\":{\"name\":\"example_tool\",\"description\":\"An example tool - replace with your own\",\"parameters\":{\"type\":\"object\",\"properties\":{\"input\":{\"type\":\"string\",\"description\":\"The input to process\"}},\"required\":[\"input\"]}}}],\"max_tool_calls\":10,\"tool_choice\":\"auto\"}";
    assert_eq!(serialize_request(&body), expected);
}

#[test]
fn round_trip_preserves_model_input_and_tools() {
    let body = RequestBody {
        model: "meta-llama/Llama-3.1-70B-Instruct".to_string(),
        input: "Say \"hi\"\nplease\ttabbed\\done".to_string(),
        instructions: Some("be brief".to_string()),
        tools: Some(ToolsSection {
            tools: create_tools(),
            max_tool_calls: 4294967295,
            tool_choice: "auto".to_string(),
        }),
        reasoning_effort: Some("high".to_string()),
    };
    let text = serialize_request(&body);
    let back = parse_request(&text).expect("canonical text must parse");
    assert_eq!(back, body);
}

#[test]
fn round_trip_without_optional_sections() {
    let body = plain_body("m", "plain input");
    let back = parse_request(&serialize_request(&body)).unwrap();
    assert_eq!(back, body);
}

#[test]
fn parser_rejects_trailing_garbage() {
    assert!(parse_request("{\"model\":\"m\",\"input\":\"hi\"}x").is_none());
    assert!(parse_request("{\"input\":\"hi\"}").is_none());
    assert!(parse_request("").is_none());
}

#[test]
fn serialized_body_is_valid_json() {
    let body = RequestBody {
        model: "m\"quote".to_string(),
        input: "line1\nline2".to_string(),
        instructions: None,
        tools: Some(ToolsSection {
            tools: create_tools(),
            max_tool_calls: 3,
            tool_choice: "auto".to_string(),
        }),
        reasoning_effort: None,
    };
    let text = serialize_request(&body);
    let value: serde_json::Value = serde_json::from_str(&text).expect("well-formed JSON");
    assert_eq!(value["model"], serde_json::Value::String("m\"quote".to_string()));
    assert_eq!(value["input"], serde_json::Value::String("line1\nline2".to_string()));
    assert_eq!(value["tool_choice"], serde_json::Value::String("auto".to_string()));
    assert_eq!(value["max_tool_calls"], serde_json::Value::from(3u32));
    let tools = value["tools"].as_array().expect("tools array");
    assert_eq!(tools.len(), 1);
    assert_eq!(
        tools[0]["function"]["name"],
        serde_json::Value::String("example_tool".to_string())
    );
    assert_eq!(
        tools[0]["function"]["parameters"]["required"][0],
        serde_json::Value::String("input".to_string())
    );
}

#[test]
fn request_with_options_round_trips() {
    let agent = open_responses::agent::OpenResponsesAgent::new(open_responses::agent::Config {
        provider: "openai".to_string(),
        api_key: "k".to_string(),
        model: "gpt-x".to_string(),
        max_tool_calls: 4,
        timeout_secs: 60,
    })
    .unwrap();
    let body = agent.build_request_with_options(
        "the task",
        Some("be brief".to_string()),
        Some(create_tools()),
        Some("high".to_string()),
    );
    assert_eq!(body.model, "gpt-x");
    assert_eq!(body.instructions.as_deref(), Some("be brief"));
    assert_eq!(body.reasoning_effort.as_deref(), Some("high"));
    let section = body.tools.as_ref().unwrap();
    assert_eq!(section.max_tool_calls, 4);
    assert_eq!(section.tool_choice, "auto");
    let back = parse_request(&serialize_request(&body)).unwrap();
    assert_eq!(back, body);
}

#[test]
fn args_object_parses_string_fields() {
    let pairs = parse_args("{\"input\":\"hello world\",\"mode\":\"fast\"}").unwrap();
    assert_eq!(
        pairs,
        vec![
            ("input".to_string(), "hello world".to_string()),
            ("mode".to_string(), "fast".to_string()),
        ]
    );
    assert_eq!(parse_args("{}").unwrap(), Vec::<(String, String)>::new());
    assert!(parse_args("{\"input\":3}").is_none());
    assert!(parse_args("not json").is_none());
}
