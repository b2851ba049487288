use open_responses::agent_loop::{execute_calls, AgentLoopState, LoopMode, LoopPhase};
use open_responses::dispatcher::{create_tools, ToolRegistry};
use open_responses::items::{OpenResponsesResponse, OutputItem, ResponseItem, Usage};

fn tool_call_item(call_id: &str, name: &str, arguments: &str) -> ResponseItem {
    ResponseItem {
        item_type: "tool_call".to_string(),
        content: None,
        summary: None,
        encrypted_content: None,
        name: Some(name.to_string()),
        arguments: Some(arguments.to_string()),
        id: None,
        tool_call_id: Some(call_id.to_string()),
    }
}

fn message_item(text: &str) -> ResponseItem {
    ResponseItem {
        item_type: "message".to_string(),
        content: Some(text.to_string()),
        summary: None,
        encrypted_content: None,
        name: None,
        arguments: None,
        id: None,
        tool_call_id: None,
    }
}

fn response(id: &str, items: Vec<ResponseItem>) -> OpenResponsesResponse {
    OpenResponsesResponse {
        id: id.to_string(),
        model: "m".to_string(),
        items,
        usage: Usage { input_tokens: 10, output_tokens: 5 },
    }
}

fn call_id_of(item: &OutputItem) -> String {
    match item {
        OutputItem::FunctionCall { call_id, .. } => call_id.clone(),
        OutputItem::FunctionCallOutput { call_id, .. } => call_id.clone(),
        other => panic!("not a call item: {:?}", other),
    }
}

#[test]
fn two_calls_move_to_executing_tools_with_matching_outputs() {
    let mut registry = ToolRegistry::new();
    let mut tools = create_tools();
    registry.register(tools.remove(0)).unwrap();

    let mut state = AgentLoopState::new(LoopMode::ClientDriven, 5);
    let resp = response(
        "r1",
        vec![
            tool_call_item("c1", "example_tool", "{\"input\":\"a\"}"),
            tool_call_item("c2", "example_tool", "{\"input\":\"b\"}"),
        ],
    );
    let pending = state.on_response(&resp);
    assert_eq!(state.phase, LoopPhase::ExecutingTools);
    assert_eq!(pending.len(), 2);

    let outputs = execute_calls(&registry, &pending);
    assert_eq!(outputs.len(), 2);
    assert_eq!(call_id_of(&outputs[0]), "c1");
    assert_eq!(call_id_of(&outputs[1]), "c2");
    match &outputs[0] {
        OutputItem::FunctionCallOutput { output, .. } => assert_eq!(output, "Processed: a"),
        other => panic!("expected output item, got {:?}", other),
    }
    match &outputs[1] {
        OutputItem::FunctionCallOutput { output, .. } => assert_eq!(output, "Processed: b"),
        other => panic!("expected output item, got {:?}", other),
    }

    state.on_tool_results(outputs);
    assert_eq!(state.phase, LoopPhase::AwaitingModel);
    assert_eq!(state.turn_count, 1);
}

#[test]
fn budget_of_two_ends_after_exactly_two_turns() {
    let registry = ToolRegistry::new();
    let mut state = AgentLoopState::new(LoopMode::ClientDriven, 2);

    // turn one: the model requests a tool call
    let pending = state.on_response(&response(
        "r1",
        vec![tool_call_item("c1", "example_tool", "{\"input\":\"a\"}")],
    ));
    assert_eq!(state.phase, LoopPhase::ExecutingTools);
    state.on_tool_results(execute_calls(&registry, &pending));
    assert_eq!(state.phase, LoopPhase::AwaitingModel);
    assert_eq!(state.turn_count, 1);

    // turn two: the model requests another tool call
    let pending = state.on_response(&response(
        "r2",
        vec![tool_call_item("c2", "example_tool", "{\"input\":\"b\"}")],
    ));
    assert_eq!(state.phase, LoopPhase::ExecutingTools);
    state.on_tool_results(execute_calls(&registry, &pending));

    // exactly two turns were spent; there is no third call
    assert_eq!(state.phase, LoopPhase::BudgetExceeded);
    assert_eq!(state.turn_count, 2);
}

#[test]
fn message_without_calls_finishes_the_loop() {
    let mut state = AgentLoopState::new(LoopMode::ClientDriven, 5);
    let pending = state.on_response(&response("r1", vec![message_item("all done")]));
    assert!(pending.is_empty());
    assert_eq!(state.phase, LoopPhase::Done);
    assert_eq!(state.turn_count, 0);
}

#[test]
fn resolved_calls_are_not_pending_again() {
    let mut state = AgentLoopState::new(LoopMode::ClientDriven, 5);
    let registry = ToolRegistry::new();
    let pending = state.on_response(&response(
        "r1",
        vec![tool_call_item("c1", "example_tool", "{\"input\":\"a\"}")],
    ));
    state.on_tool_results(execute_calls(&registry, &pending));
    // next response brings a fresh call; the answered one stays resolved
    let pending = state.on_response(&response(
        "r2",
        vec![tool_call_item("c9", "example_tool", "{\"input\":\"z\"}")],
    ));
    assert_eq!(pending.len(), 1);
    assert_eq!(call_id_of(&pending[0]), "c9");
}

#[test]
fn server_driven_mode_is_done_after_one_call() {
    let mut state = AgentLoopState::new(LoopMode::ServerDriven, 5);
    let pending = state.on_response(&response(
        "r1",
        vec![
            tool_call_item("c1", "example_tool", "{\"input\":\"a\"}"),
            message_item("final answer"),
        ],
    ));
    assert_eq!(pending.len(), 1);
    assert_eq!(state.phase, LoopPhase::Done);
}

#[test]
fn server_driven_response_without_message_fails() {
    let mut state = AgentLoopState::new(LoopMode::ServerDriven, 5);
    let _ = state.on_response(&response(
        "r1",
        vec![tool_call_item("c1", "example_tool", "{\"input\":\"a\"}")],
    ));
    assert_eq!(state.phase, LoopPhase::Failed);
}

#[test]
fn response_with_neither_message_nor_calls_fails() {
    let mut state = AgentLoopState::new(LoopMode::ClientDriven, 5);
    let pending = state.on_response(&response("r1", vec![]));
    assert!(pending.is_empty());
    assert_eq!(state.phase, LoopPhase::Failed);

    let mut state = AgentLoopState::new(LoopMode::ClientDriven, 5);
    let reasoning_only = ResponseItem {
        item_type: "reasoning".to_string(),
        content: Some("thinking".to_string()),
        summary: None,
        encrypted_content: None,
        name: None,
        arguments: None,
        id: None,
        tool_call_id: None,
    };
    let _ = state.on_response(&response("r2", vec![reasoning_only]));
    assert_eq!(state.phase, LoopPhase::Failed);
}

#[test]
fn rendered_outputs_name_each_call() {
    let outputs = vec![
        OutputItem::FunctionCallOutput { call_id: "c1".to_string(), output: "Processed: a".to_string() },
        OutputItem::FunctionCallOutput { call_id: "c2".to_string(), output: "Processed: b".to_string() },
    ];
    assert_eq!(
        open_responses::agent_loop::render_outputs(&outputs),
        "[tool result c1] Processed: a\n[tool result c2] Processed: b\n"
    );
    assert_eq!(open_responses::agent_loop::render_outputs(&Vec::new()), "");
}

#[test]
fn zero_budget_is_exceeded_from_the_start() {
    let state = AgentLoopState::new(LoopMode::ClientDriven, 0);
    assert_eq!(state.phase, LoopPhase::BudgetExceeded);
}

#[test]
fn failure_aborts_the_loop() {
    let mut state = AgentLoopState::new(LoopMode::ClientDriven, 5);
    state.fail();
    assert_eq!(state.phase, LoopPhase::Failed);
}

#[test]
fn usage_accumulates_across_turns() {
    let registry = ToolRegistry::new();
    let mut state = AgentLoopState::new(LoopMode::ClientDriven, 5);
    let pending = state.on_response(&response(
        "r1",
        vec![tool_call_item("c1", "example_tool", "{\"input\":\"a\"}")],
    ));
    state.on_tool_results(execute_calls(&registry, &pending));
    let _ = state.on_response(&response("r2", vec![message_item("done")]));
    assert_eq!(state.accumulated_usage.input_tokens, 20);
    assert_eq!(state.accumulated_usage.output_tokens, 10);
}

#[test]
fn unknown_tool_in_loop_yields_textual_result() {
    let registry = ToolRegistry::new();
    let mut state = AgentLoopState::new(LoopMode::ClientDriven, 5);
    let pending = state.on_response(&response("r1", vec![tool_call_item("c1", "nope", "{}")]));
    let outputs = execute_calls(&registry, &pending);
    assert_eq!(outputs.len(), 1);
    match &outputs[0] {
        OutputItem::FunctionCallOutput { call_id, output } => {
            assert_eq!(call_id, "c1");
            assert_eq!(output, "Unknown tool: nope");
        }
        other => panic!("expected output item, got {:?}", other),
    }
    state.on_tool_results(outputs);
    assert_eq!(state.phase, LoopPhase::AwaitingModel);
}

#[test]
fn unknown_item_types_are_preserved() {
    let raw = ResponseItem {
        item_type: "telemetry".to_string(),
        content: None,
        summary: None,
        encrypted_content: None,
        name: None,
        arguments: None,
        id: Some("x".to_string()),
        tool_call_id: None,
    };
    let parsed = open_responses::items::parse_item(&raw);
    match parsed {
        OutputItem::Unknown { raw } => assert_eq!(raw.item_type, "telemetry"),
        other => panic!("expected Unknown, got {:?}", other),
    }
}
