use open_responses::agent::{check_status, Config, OpenResponsesAgent};
use open_responses::dispatcher::{create_tools, execute_tool, ToolRegistry};
use open_responses::errors::AgentError;
use open_responses::registry::{get_endpoints, resolve, resolve_named, RoutingStrategy};

#[test]
fn default_registry_has_five_providers() {
    let reg = get_endpoints();
    assert_eq!(reg.len(), 5);
    assert_eq!(reg[0].0, "openai");
    assert_eq!(reg[0].1, "https://api.openai.com/v1/responses");
    assert_eq!(reg[2].0, "huggingface");
    assert_eq!(reg[2].1, "https://api-inference.huggingface.co/v1/responses");
}

#[test]
fn unknown_provider_lists_registered_names() {
    let reg: Vec<(String, String)> = vec![
        ("openai".to_string(), "https://api.openai.com/v1/responses".to_string()),
        ("anthropic".to_string(), "https://api.anthropic.com/v1/responses".to_string()),
        (
            "huggingface".to_string(),
            "https://api-inference.huggingface.co/v1/responses".to_string(),
        ),
    ];
    match resolve_named(&reg, "acme") {
        Err(AgentError::UnknownProvider { requested, available }) => {
            assert_eq!(requested, "acme");
            assert_eq!(available, vec!["openai", "anthropic", "huggingface"]);
        }
        other => panic!("expected UnknownProvider, got {:?}", other),
    }
}

#[test]
fn unknown_provider_message_lists_names() {
    let reg: Vec<(String, String)> = vec![
        ("openai".to_string(), "u1".to_string()),
        ("anthropic".to_string(), "u2".to_string()),
        ("huggingface".to_string(), "u3".to_string()),
    ];
    let err = resolve_named(&reg, "acme").unwrap_err();
    assert_eq!(
        err.message(),
        "Unknown provider: acme. Available: openai, anthropic, huggingface"
    );
}

#[test]
fn named_lookup_finds_first_match() {
    let reg = get_endpoints();
    let url = resolve(RoutingStrategy::NamedProvider, &reg, "together").unwrap();
    assert_eq!(url, "https://api.together.xyz/v1/responses");
}

#[test]
fn suffix_routing_uses_fixed_endpoint() {
    let reg = get_endpoints();
    let url = resolve(RoutingStrategy::ModelSuffix, &reg, "meta-llama/Llama-3.1-70B:novita")
        .unwrap();
    assert_eq!(url, "https://api-inference.huggingface.co/v1/responses");
}

#[test]
fn agent_new_resolves_endpoint() {
    let agent = OpenResponsesAgent::new(Config {
        provider: "huggingface".to_string(),
        api_key: "k".to_string(),
        model: "meta-llama/Llama-3.1-70B-Instruct".to_string(),
        max_tool_calls: 10,
        timeout_secs: 120,
    })
    .unwrap();
    assert_eq!(agent.endpoint, "https://api-inference.huggingface.co/v1/responses");
    assert_eq!(
        agent.info(),
        "Provider: huggingface, Model: meta-llama/Llama-3.1-70B-Instruct"
    );
}

#[test]
fn agent_new_rejects_unknown_provider() {
    let err = OpenResponsesAgent::new(Config {
        provider: "acme".to_string(),
        api_key: "k".to_string(),
        model: "m".to_string(),
        max_tool_calls: 10,
        timeout_secs: 120,
    })
    .unwrap_err();
    assert!(matches!(err, AgentError::UnknownProvider { .. }));
    assert_eq!(
        err.message(),
        "Unknown provider: acme. Available: openai, anthropic, huggingface, together, nebius"
    );
}

#[test]
fn example_tool_processes_input() {
    let args = vec![("input".to_string(), "hello".to_string())];
    assert_eq!(execute_tool("example_tool", &args), "Processed: hello");
}

#[test]
fn example_tool_missing_input_is_empty() {
    let args: Vec<(String, String)> = Vec::new();
    assert_eq!(execute_tool("example_tool", &args), "Processed: ");
}

#[test]
fn unknown_tool_name_is_reported_textually() {
    let args: Vec<(String, String)> = Vec::new();
    assert_eq!(execute_tool("nope", &args), "Unknown tool: nope");
}

#[test]
fn execute_unknown_tool_fails_but_report_continues() {
    let reg = ToolRegistry::new();
    let args: Vec<(String, String)> = Vec::new();
    match reg.execute("nope", &args) {
        Err(AgentError::UnknownTool { name }) => assert_eq!(name, "nope"),
        other => panic!("expected UnknownTool, got {:?}", other),
    }
    assert_eq!(reg.execute_or_report("nope", &args), "Unknown tool: nope");
}

#[test]
fn register_rejects_duplicate_names() {
    let mut reg = ToolRegistry::new();
    let mut tools = create_tools();
    let tool = tools.remove(0);
    let again = tool.clone();
    assert!(reg.register(tool).is_ok());
    match reg.register(again) {
        Err(AgentError::DuplicateTool { name }) => assert_eq!(name, "example_tool"),
        other => panic!("expected DuplicateTool, got {:?}", other),
    }
}

#[test]
fn registered_tool_executes() {
    let mut reg = ToolRegistry::new();
    let mut tools = create_tools();
    reg.register(tools.remove(0)).unwrap();
    let args = vec![("input".to_string(), "x".to_string())];
    assert_eq!(reg.execute("example_tool", &args).unwrap(), "Processed: x");
}

#[test]
fn status_classification_separates_transport_errors() {
    assert_eq!(check_status(200, "ok".to_string()).unwrap(), "ok");
    assert_eq!(check_status(299, "ok".to_string()).unwrap(), "ok");
    match check_status(404, "not found".to_string()) {
        Err(AgentError::Transport { status, body }) => {
            assert_eq!(status, 404);
            assert_eq!(body, "not found");
        }
        other => panic!("expected Transport, got {:?}", other),
    }
    let err = check_status(500, "boom".to_string()).unwrap_err();
    assert_eq!(err.message(), "HTTP error: 500 - boom");
}

#[test]
fn error_messages_name_their_cause() {
    assert_eq!(
        AgentError::Decode { detail: "bad json".to_string() }.message(),
        "Decode error: bad json"
    );
    assert_eq!(
        AgentError::DuplicateTool { name: "t".to_string() }.message(),
        "Duplicate tool: t"
    );
    assert_eq!(
        AgentError::Config { detail: "missing key".to_string() }.message(),
        "Config error: missing key"
    );
}
