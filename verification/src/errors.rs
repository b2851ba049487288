//! The library's error taxonomy.  Budget exhaustion is deliberately not an
//! error: it is a normal terminal state of the agent loop.

use vstd::prelude::*;
use crate::strutil::{concat_str, push_chars, chars_to_string, strs_view};

verus! {

/// Everything that can go wrong in the library.
///
/// `UnknownProvider` and `Config` are fatal configuration mistakes;
/// `Transport` carries a non-success HTTP status with the response body;
/// `Decode` is a structurally invalid response body, never conflated with
/// `Transport`; `DuplicateTool` and `UnknownTool` are dispatcher
/// misconfigurations.
#[derive(Debug, Clone)]
pub enum AgentError {
    UnknownProvider { requested: String, available: Vec<String> },
    Transport { status: u16, body: String },
    Decode { detail: String },
    DuplicateTool { name: String },
    UnknownTool { name: String },
    Config { detail: String },
}

/// The names joined with `", "` between them.
pub open spec fn joined(names: Seq<Seq<char>>) -> Seq<char>
    decreases names.len(),
{
    if names.len() == 0 {
        Seq::empty()
    } else if names.len() == 1 {
        names[0]
    } else {
        joined(names.drop_last()) + ", "@ + names.last()
    }
}

/// Join names with `", "` between them, as `joined` states it.
pub fn join_names(names: &Vec<String>) -> (r: String)
    ensures
        r@ == joined(strs_view(names@)),
{
    let mut out: Vec<char> = Vec::new();
    let mut i: usize = 0;
    while i < names.len()
        invariant
            i <= names@.len(),
            out@ == joined(strs_view(names@).take(i as int)),
        decreases names@.len() - i,
    {
        proof {
            assert(strs_view(names@).take(i + 1 as int).drop_last() =~= strs_view(
                names@,
            ).take(i as int));
            assert(strs_view(names@).take(i + 1 as int).last() == names@[i as int]@);
        }
        if i > 0 {
            push_chars(&mut out, ", ");
        }
        push_chars(&mut out, names[i].as_str());
        proof {
            assert(strs_view(names@)[i as int] == names@[i as int]@);
            if i == 0 {
                assert(strs_view(names@).take(1).len() == 1);
                assert(joined(strs_view(names@).take(1)) == strs_view(names@).take(1)[0]);
                assert(out@ =~= joined(strs_view(names@).take(1)));
            } else {
                assert(strs_view(names@).take(i + 1 as int).len() >= 2);
                assert(out@ =~= joined(strs_view(names@).take(i + 1 as int)));
            }
        }
        i += 1;
    }
    proof {
        assert(strs_view(names@).take(names@.len() as int) =~= strs_view(names@));
    }
    chars_to_string(&out)
}

/// The message text of each error variant.
pub open spec fn message_of(e: AgentError) -> Seq<char> {
    match e {
        AgentError::UnknownProvider { requested, available } => "Unknown provider: "@
            + requested@ + ". Available: "@ + joined(strs_view(available@)),
        AgentError::Transport { status, body } => "HTTP error: "@ + crate::codec::enc_num(
            status as nat,
        ) + " - "@ + body@,
        AgentError::Decode { detail } => "Decode error: "@ + detail@,
        AgentError::DuplicateTool { name } => "Duplicate tool: "@ + name@,
        AgentError::UnknownTool { name } => "Unknown tool: "@ + name@,
        AgentError::Config { detail } => "Config error: "@ + detail@,
    }
}

impl AgentError {
    /// A human-readable description of this error.
    pub fn message(&self) -> (r: String)
        ensures
            r@ == message_of(*self),
    {
        match self {
            AgentError::UnknownProvider { requested, available } => {
                let head = concat_str("Unknown provider: ", requested.as_str());
                let mid = concat_str(head.as_str(), ". Available: ");
                concat_str(mid.as_str(), join_names(available).as_str())
            },
            AgentError::Transport { status, body } => {
                let mut out: Vec<char> = Vec::new();
                push_chars(&mut out, "HTTP error: ");
                crate::codec::push_num(&mut out, *status as u32);
                push_chars(&mut out, " - ");
                push_chars(&mut out, body.as_str());
                chars_to_string(&out)
            },
            AgentError::Decode { detail } => concat_str("Decode error: ", detail.as_str()),
            AgentError::DuplicateTool { name } => concat_str("Duplicate tool: ", name.as_str()),
            AgentError::UnknownTool { name } => concat_str("Unknown tool: ", name.as_str()),
            AgentError::Config { detail } => concat_str("Config error: ", detail.as_str()),
        }
    }
}

} // verus!
