//! The provider registry: maps a logical provider name to an endpoint URL,
//! or routes a suffixed model identifier through one fixed endpoint.

use vstd::prelude::*;
use crate::assoc::{keys, keys_of, lookup, pairs_view};
use crate::errors::AgentError;
use crate::strutil::strs_view;

verus! {

/// How a provider is picked: by an explicit name looked up in a registry
/// table, or by a `<model>:<suffix>` model identifier routed through a
/// single fixed endpoint that performs the dispatch itself.  The two
/// strategies are selected explicitly by the caller, never inferred.
#[derive(Debug, Clone, Copy, PartialEq, Eq, Structural)]
pub enum RoutingStrategy {
    NamedProvider,
    ModelSuffix,
}

/// The built-in provider table: five named providers, each with its
/// responses endpoint.
pub open spec fn default_registry() -> Seq<(Seq<char>, Seq<char>)> {
    seq![
        ("openai"@, "https://api.openai.com/v1/responses"@),
        ("anthropic"@, "https://api.anthropic.com/v1/responses"@),
        ("huggingface"@, "https://api-inference.huggingface.co/v1/responses"@),
        ("together"@, "https://api.together.xyz/v1/responses"@),
        ("nebius"@, "https://api.nebius.ai/v1/responses"@),
    ]
}

/// The fixed endpoint that serves suffix-routed model identifiers.
pub open spec fn suffix_router_url() -> Seq<char> {
    "https://api-inference.huggingface.co/v1/responses"@
}

/// The built-in provider table, as `default_registry` states it.
pub fn get_endpoints() -> (r: Vec<(String, String)>)
    ensures
        pairs_view(r@) == default_registry(),
{
    let mut out: Vec<(String, String)> = Vec::new();
    out.push(("openai".to_owned(), "https://api.openai.com/v1/responses".to_owned()));
    out.push(("anthropic".to_owned(), "https://api.anthropic.com/v1/responses".to_owned()));
    out.push((
        "huggingface".to_owned(),
        "https://api-inference.huggingface.co/v1/responses".to_owned(),
    ));
    out.push(("together".to_owned(), "https://api.together.xyz/v1/responses".to_owned()));
    out.push(("nebius".to_owned(), "https://api.nebius.ai/v1/responses".to_owned()));
    proof {
        assert(pairs_view(out@) =~= default_registry());
    }
    out
}

/// What `resolve_named` promises: the URL of the first matching pair on
/// success; on failure no pair matches and the error carries the requested
/// name and every registered name, in order.
pub open spec fn resolve_named_post(
    reg: Seq<(Seq<char>, Seq<char>)>,
    name: Seq<char>,
    r: Result<String, AgentError>,
) -> bool {
    match r {
        Result::Ok(url) => lookup(reg, name) == Option::Some(url@),
        Result::Err(e) => lookup(reg, name) is None && (e matches AgentError::UnknownProvider {
            requested,
            available,
        } && requested@ == name && strs_view(available@) == keys_of(reg)),
    }
}

/// Look an explicit provider name up in a registry table.  Succeeds with
/// the URL of the first matching pair; fails with `UnknownProvider`
/// carrying every registered name, in order, when no pair matches.
pub fn resolve_named(registry: &Vec<(String, String)>, name: &str) -> (r: Result<
    String,
    AgentError,
>)
    ensures
        resolve_named_post(pairs_view(registry@), name@, r),
{
    match crate::assoc::find(registry, name) {
        Option::Some(url) => Result::Ok(url),
        Option::None => Result::Err(
            AgentError::UnknownProvider { requested: name.to_owned(), available: keys(registry) },
        ),
    }
}

/// Resolve under an explicitly chosen strategy.  Named lookup consults the
/// table; suffix routing returns the fixed router endpoint and leaves the
/// model identifier, suffix included, untouched for the remote service to
/// dispatch.
pub fn resolve(
    strategy: RoutingStrategy,
    registry: &Vec<(String, String)>,
    name_or_model: &str,
) -> (r: Result<String, AgentError>)
    ensures
        match strategy {
            RoutingStrategy::NamedProvider => resolve_named_post(
                pairs_view(registry@),
                name_or_model@,
                r,
            ),
            RoutingStrategy::ModelSuffix => (r matches Result::Ok(url) && url@
                == suffix_router_url()),
        },
{
    match strategy {
        RoutingStrategy::NamedProvider => resolve_named(registry, name_or_model),
        RoutingStrategy::ModelSuffix => Result::Ok(
            "https://api-inference.huggingface.co/v1/responses".to_owned(),
        ),
    }
}

} // verus!
