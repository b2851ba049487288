//! The tool dispatcher: tool definitions, a registry of callable tools,
//! and the single-call execution contract.  A failure of the tool itself is
//! reported as tool output, never propagated as a loop failure, so the
//! remote model can see and react to it.

use vstd::prelude::*;
use crate::assoc::{lookup, pairs_view};
use crate::errors::AgentError;
use crate::strutil::{concat_str, str_eq};

verus! {

/// One parameter of a tool: its name, its JSON-schema type, a description,
/// and whether the tool requires it.
#[derive(Debug, Clone, PartialEq)]
pub struct ParamSpec {
    pub name: String,
    pub schema_type: String,
    pub description: String,
    pub required: bool,
}

/// Mathematical view of a `ParamSpec`.
pub struct ParamSpecView {
    pub name: Seq<char>,
    pub schema_type: Seq<char>,
    pub description: Seq<char>,
    pub required: bool,
}

impl View for ParamSpec {
    type V = ParamSpecView;

    open spec fn view(&self) -> ParamSpecView {
        ParamSpecView {
            name: self.name@,
            schema_type: self.schema_type@,
            description: self.description@,
            required: self.required,
        }
    }
}

/// One callable tool: a unique name, a description, and the parameters of
/// its argument object.
#[derive(Debug, Clone, PartialEq)]
pub struct ToolDefinition {
    pub name: String,
    pub description: String,
    pub params: Vec<ParamSpec>,
}

/// Mathematical view of a `ToolDefinition`.
pub struct ToolDefinitionView {
    pub name: Seq<char>,
    pub description: Seq<char>,
    pub params: Seq<ParamSpecView>,
}

/// The views of a list of parameters.
pub open spec fn params_view(ps: Seq<ParamSpec>) -> Seq<ParamSpecView> {
    ps.map_values(|p: ParamSpec| p@)
}

impl View for ToolDefinition {
    type V = ToolDefinitionView;

    open spec fn view(&self) -> ToolDefinitionView {
        ToolDefinitionView {
            name: self.name@,
            description: self.description@,
            params: params_view(self.params@),
        }
    }
}

/// The views of a list of tools.
pub open spec fn tools_view(tools: Seq<ToolDefinition>) -> Seq<ToolDefinitionView> {
    tools.map_values(|t: ToolDefinition| t@)
}

/// Whether some tool of the list carries this name.
pub open spec fn has_tool(tools: Seq<ToolDefinitionView>, name: Seq<char>) -> bool {
    exists|i: int| 0 <= i < tools.len() && tools[i].name == name
}

/// Tool names are pairwise distinct.
pub open spec fn names_unique(tools: Seq<ToolDefinitionView>) -> bool {
    forall|i: int, j: int|
        0 <= i < j < tools.len() ==> tools[i].name != tools[j].name
}

/// The single built-in tool definition set: one example tool taking one
/// required string parameter named `input`.
pub fn create_tools() -> (r: Vec<ToolDefinition>)
    ensures
        tools_view(r@).len() == 1,
        tools_view(r@)[0].name == "example_tool"@,
        tools_view(r@)[0].description == "An example tool - replace with your own"@,
        tools_view(r@)[0].params.len() == 1,
        tools_view(r@)[0].params[0].name == "input"@,
        tools_view(r@)[0].params[0].schema_type == "string"@,
        tools_view(r@)[0].params[0].description == "The input to process"@,
        tools_view(r@)[0].params[0].required,
{
    let mut params: Vec<ParamSpec> = Vec::new();
    params.push(
        ParamSpec {
            name: "input".to_owned(),
            schema_type: "string".to_owned(),
            description: "The input to process".to_owned(),
            required: true,
        },
    );
    let mut tools: Vec<ToolDefinition> = Vec::new();
    tools.push(
        ToolDefinition {
            name: "example_tool".to_owned(),
            description: "An example tool - replace with your own".to_owned(),
            params,
        },
    );
    tools
}

/// What the built-in executor returns: the example tool echoes its
/// `input` argument behind a fixed prefix; any other name yields a textual
/// "unknown tool" result.
pub open spec fn execute_tool_spec(name: Seq<char>, args: Seq<(Seq<char>, Seq<char>)>) -> Seq<char> {
    if name == "example_tool"@ {
        "Processed: "@ + match lookup(args, "input"@) {
            Option::Some(v) => v,
            Option::None => ""@,
        }
    } else {
        "Unknown tool: "@ + name
    }
}

/// Run the built-in executor on an argument object of string fields.
pub fn execute_tool(name: &str, args: &Vec<(String, String)>) -> (r: String)
    ensures
        r@ == execute_tool_spec(name@, pairs_view(args@)),
{
    if str_eq(name, "example_tool") {
        let input = match crate::assoc::find(args, "input") {
            Option::Some(v) => v,
            Option::None => "".to_owned(),
        };
        concat_str("Processed: ", input.as_str())
    } else {
        concat_str("Unknown tool: ", name)
    }
}

/// A registry of callable tools, keyed by unique name.  Registration must
/// complete before execution begins; the registry is read-only afterwards.
#[derive(Debug)]
pub struct ToolRegistry {
    pub tools: Vec<ToolDefinition>,
}

impl View for ToolRegistry {
    type V = Seq<ToolDefinitionView>;

    open spec fn view(&self) -> Seq<ToolDefinitionView> {
        tools_view(self.tools@)
    }
}

impl ToolRegistry {
    /// An empty registry.
    pub fn new() -> (r: ToolRegistry)
        ensures
            r@ =~= Seq::<ToolDefinitionView>::empty(),
            names_unique(r@),
    {
        ToolRegistry { tools: Vec::new() }
    }

    /// Register one tool.  Fails with `DuplicateTool`, leaving the
    /// registry unchanged, exactly when the name is already taken.
    pub fn register(&mut self, tool: ToolDefinition) -> (r: Result<(), AgentError>)
        ensures
            match r {
                Result::Ok(()) => !has_tool(old(self)@, tool@.name) && final(self)@ == old(
                    self,
                )@.push(tool@),
                Result::Err(e) => has_tool(old(self)@, tool@.name) && final(self)@ == old(self)@
                    && (e matches AgentError::DuplicateTool { name } && name@ == tool@.name),
            },
            names_unique(old(self)@) ==> names_unique(final(self)@),
    {
        let ghost before = self@;
        let mut i: usize = 0;
        while i < self.tools.len()
            invariant
                i <= self.tools@.len(),
                self@ == before,
                before.len() == self.tools@.len(),
                forall|j: int| 0 <= j < i ==> before[j].name != tool@.name,
            decreases self.tools@.len() - i,
        {
            proof {
                assert(before[i as int] == self.tools@[i as int]@);
            }
            if str_eq(self.tools[i].name.as_str(), tool.name.as_str()) {
                return Result::Err(AgentError::DuplicateTool { name: tool.name });
            }
            i += 1;
        }
        let ghost tv = tool@;
        self.tools.push(tool);
        proof {
            assert(self@ =~= before.push(tv));
        }
        Result::Ok(())
    }

    /// Whether a tool of this name is registered.
    pub fn contains(&self, name: &str) -> (r: bool)
        ensures
            r == has_tool(self@, name@),
    {
        let mut i: usize = 0;
        while i < self.tools.len()
            invariant
                i <= self.tools@.len(),
                self@.len() == self.tools@.len(),
                forall|j: int| 0 <= j < i ==> self@[j].name != name@,
            decreases self.tools@.len() - i,
        {
            proof {
                assert(self@[i as int] == self.tools@[i as int]@);
            }
            if str_eq(self.tools[i].name.as_str(), name) {
                return true;
            }
            i += 1;
        }
        false
    }

    /// Execute one call.  Fails with `UnknownTool` exactly when no tool of
    /// this name is registered; otherwise returns the executor's text.
    pub fn execute(&self, name: &str, args: &Vec<(String, String)>) -> (r: Result<
        String,
        AgentError,
    >)
        ensures
            match r {
                Result::Ok(out) => has_tool(self@, name@) && out@ == execute_tool_spec(
                    name@,
                    pairs_view(args@),
                ),
                Result::Err(e) => !has_tool(self@, name@) && (e matches
                    AgentError::UnknownTool { name: n } && n@ == name@),
            },
    {
        if self.contains(name) {
            Result::Ok(execute_tool(name, args))
        } else {
            Result::Err(AgentError::UnknownTool { name: name.to_owned() })
        }
    }

    /// What `execute_or_report` returns: the executor's text for a
    /// registered tool, a textual "tool not found" result otherwise.
    pub open spec fn report_spec(
        tools: Seq<ToolDefinitionView>,
        name: Seq<char>,
        args: Seq<(Seq<char>, Seq<char>)>,
    ) -> Seq<char> {
        if has_tool(tools, name) {
            execute_tool_spec(name, args)
        } else {
            "Unknown tool: "@ + name
        }
    }

    /// Execute one call, converting an unknown tool into a textual result
    /// visible to the model, so the loop continues instead of aborting.
    pub fn execute_or_report(&self, name: &str, args: &Vec<(String, String)>) -> (r: String)
        ensures
            r@ == ToolRegistry::report_spec(self@, name@, pairs_view(args@)),
    {
        match self.execute(name, args) {
            Result::Ok(out) => out,
            Result::Err(_) => concat_str("Unknown tool: ", name),
        }
    }
}

} // verus!
