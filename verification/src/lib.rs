//! A provider-agnostic client library for an "agent responses" protocol.
//!
//! A remote endpoint accepts a model identifier, an input string and an
//! optional set of callable tool definitions, and returns a heterogeneous
//! sequence of typed output items (model reasoning, assistant messages, tool
//! invocations, tool results) plus usage accounting.  This crate holds the
//! verified core: the item model, the reasoning classifier, the provider
//! registry, the request codec, the tool dispatcher and the agent-loop state
//! machine.  The HTTP transport and configuration loading are thin wrappers
//! kept outside the library.

pub mod agent;
pub mod agent_loop;
pub mod assoc;
pub mod classifier;
pub mod codec;
pub mod dispatcher;
pub mod errors;
pub mod items;
pub mod reasoning;
pub mod registry;
pub mod request;
pub mod strutil;
