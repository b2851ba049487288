//! The provider-agnostic agent: configuration, endpoint resolution, and
//! read-only accessors over classification results.

use vstd::prelude::*;
use crate::assoc::lookup;
use crate::classifier::{classify, classify_spec};
use crate::errors::AgentError;
use crate::items::ResponseItem;
use crate::reasoning::ReasoningLevel;
use crate::dispatcher::{tools_view, ToolDefinition};
use crate::registry::{default_registry, get_endpoints, resolve_named, resolve_named_post};
use crate::request::{RequestBody, ToolsSection};
use crate::strutil::concat_str;

verus! {

/// Agent configuration, constructed once by the caller and passed in
/// whole; the library never reads the process environment itself.
#[derive(Debug, Clone)]
pub struct Config {
    pub provider: String,
    pub api_key: String,
    pub model: String,
    pub max_tool_calls: u32,
    pub timeout_secs: u64,
}

/// A configured agent: the resolved endpoint plus everything one request
/// needs.
#[derive(Debug, Clone)]
pub struct OpenResponsesAgent {
    pub provider: String,
    pub endpoint: String,
    pub api_key: String,
    pub model: String,
    pub max_tool_calls: u32,
    pub timeout_secs: u64,
}

impl OpenResponsesAgent {
    /// Build an agent from a configuration.  Succeeds exactly when the
    /// provider name is in the built-in table, with the endpoint of that
    /// provider; fails with `UnknownProvider` listing every registered
    /// name otherwise.
    pub fn new(config: Config) -> (r: Result<OpenResponsesAgent, AgentError>)
        ensures
            match r {
                Result::Ok(agent) => lookup(default_registry(), config.provider@)
                    == Option::Some(agent.endpoint@) && agent.provider@ == config.provider@
                    && agent.api_key@ == config.api_key@ && agent.model@ == config.model@
                    && agent.max_tool_calls == config.max_tool_calls && agent.timeout_secs
                    == config.timeout_secs,
                Result::Err(e) => resolve_named_post(
                    default_registry(),
                    config.provider@,
                    Result::Err(e),
                ),
            },
    {
        let endpoints = get_endpoints();
        match resolve_named(&endpoints, config.provider.as_str()) {
            Result::Ok(endpoint) => Result::Ok(
                OpenResponsesAgent {
                    provider: config.provider,
                    endpoint,
                    api_key: config.api_key,
                    model: config.model,
                    max_tool_calls: config.max_tool_calls,
                    timeout_secs: config.timeout_secs,
                },
            ),
            Result::Err(e) => Result::Err(e),
        }
    }

    /// The reasoning level and extracted text of one item, as the
    /// classifier states it.
    pub fn get_reasoning(&self, item: &ResponseItem) -> (r: (ReasoningLevel, String))
        ensures
            r.0 == classify_spec(item@).0,
            r.1@ == classify_spec(item@).1,
    {
        classify(item)
    }

    /// The request body one call sends: the configured model, the given
    /// input, and — when tools are supplied — the tools with this agent's
    /// call budget and automatic tool choice.  Instructions and reasoning
    /// effort are left out; `build_request_with_options` takes them.
    pub fn build_request(&self, input_text: &str, tools: Option<Vec<ToolDefinition>>) -> (r:
        RequestBody)
        ensures
            r@.model == self.model@,
            r@.input == input_text@,
            r@.instructions is None,
            r@.reasoning_effort is None,
            match tools {
                Option::Some(ts) => (r@.tools matches Option::Some(sect) && sect.tools
                    == tools_view(ts@) && sect.max_tool_calls == self.max_tool_calls
                    && sect.tool_choice == "auto"@),
                Option::None => r@.tools is None,
            },
    {
        self.build_request_with_options(input_text, Option::None, tools, Option::None)
    }

    /// The request body one call sends, with every optional input of a
    /// send: instructions and a reasoning effort beside the model, the
    /// input and the tools section.
    pub fn build_request_with_options(
        &self,
        input_text: &str,
        instructions: Option<String>,
        tools: Option<Vec<ToolDefinition>>,
        reasoning_effort: Option<String>,
    ) -> (r: RequestBody)
        ensures
            r@.model == self.model@,
            r@.input == input_text@,
            r@.instructions == crate::items::opt_view(instructions),
            r@.reasoning_effort == crate::items::opt_view(reasoning_effort),
            match tools {
                Option::Some(ts) => (r@.tools matches Option::Some(sect) && sect.tools
                    == tools_view(ts@) && sect.max_tool_calls == self.max_tool_calls
                    && sect.tool_choice == "auto"@),
                Option::None => r@.tools is None,
            },
    {
        let tools_section = match tools {
            Option::Some(ts) => Option::Some(
                ToolsSection {
                    tools: ts,
                    max_tool_calls: self.max_tool_calls,
                    tool_choice: "auto".to_owned(),
                },
            ),
            Option::None => Option::None,
        };
        RequestBody {
            model: self.model.clone(),
            input: input_text.to_owned(),
            instructions,
            tools: tools_section,
            reasoning_effort,
        }
    }

    /// A one-line description of the configured provider and model.
    pub fn info(&self) -> (r: String)
        ensures
            r@ == "Provider: "@ + self.provider@ + ", Model: "@ + self.model@,
    {
        let head = concat_str("Provider: ", self.provider.as_str());
        let mid = concat_str(head.as_str(), ", Model: ");
        concat_str(mid.as_str(), self.model.as_str())
    }
}

/// Classify one HTTP outcome: a success status passes the body through
/// for decoding; any other status is a `Transport` error carrying the
/// status and the body, never silently discarded.
pub fn check_status(status: u16, body: String) -> (r: Result<String, AgentError>)
    ensures
        match r {
            Result::Ok(b) => 200 <= status < 300 && b@ == body@,
            Result::Err(e) => !(200 <= status < 300) && (e matches AgentError::Transport {
                status: st,
                body: b,
            } && st == status && b@ == body@),
        },
{
    if 200 <= status && status < 300 {
        Result::Ok(body)
    } else {
        Result::Err(AgentError::Transport { status, body })
    }
}

} // verus!
