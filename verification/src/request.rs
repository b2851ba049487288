//! The request body codec: the canonical wire form of one request, its
//! serializer, the parser of that canonical form, and the proof that
//! parsing undoes serializing.

use vstd::prelude::*;
use crate::codec::{
    dec_num, dec_string, enc_num, enc_string, expect, lemma_dec_enc_string,
    lemma_dec_string_len, lemma_expect,
};
use crate::codec::{parse_lit, parse_string, push_num, push_string};
use crate::dispatcher::{
    params_view, tools_view, ParamSpec, ParamSpecView, ToolDefinition, ToolDefinitionView,
};
use crate::strutil::{chars_to_string, push_chars, strs_view};

verus! {

// ---------------------------------------------------------------------------
// The request body
// ---------------------------------------------------------------------------

/// The tool-related fields of a request; present together or not at all,
/// as one section.
#[derive(Debug, Clone, PartialEq)]
pub struct ToolsSection {
    pub tools: Vec<ToolDefinition>,
    pub max_tool_calls: u32,
    pub tool_choice: String,
}

/// Mathematical view of a `ToolsSection`.
pub struct ToolsSectionView {
    pub tools: Seq<ToolDefinitionView>,
    pub max_tool_calls: u32,
    pub tool_choice: Seq<char>,
}

impl View for ToolsSection {
    type V = ToolsSectionView;

    open spec fn view(&self) -> ToolsSectionView {
        ToolsSectionView {
            tools: tools_view(self.tools@),
            max_tool_calls: self.max_tool_calls,
            tool_choice: self.tool_choice@,
        }
    }
}

/// One request body: the model and input always; instructions, the tools
/// section and a reasoning effort optionally.
#[derive(Debug, Clone, PartialEq)]
pub struct RequestBody {
    pub model: String,
    pub input: String,
    pub instructions: Option<String>,
    pub tools: Option<ToolsSection>,
    pub reasoning_effort: Option<String>,
}

/// Mathematical view of a `RequestBody`.
pub struct RequestBodyView {
    pub model: Seq<char>,
    pub input: Seq<char>,
    pub instructions: Option<Seq<char>>,
    pub tools: Option<ToolsSectionView>,
    pub reasoning_effort: Option<Seq<char>>,
}

impl View for RequestBody {
    type V = RequestBodyView;

    open spec fn view(&self) -> RequestBodyView {
        RequestBodyView {
            model: self.model@,
            input: self.input@,
            instructions: crate::items::opt_view(self.instructions),
            tools: match self.tools {
                Option::Some(ts) => Option::Some(ts@),
                Option::None => Option::None,
            },
            reasoning_effort: crate::items::opt_view(self.reasoning_effort),
        }
    }
}

// ---------------------------------------------------------------------------
// Spec encoders
// ---------------------------------------------------------------------------

/// One property of a tool's parameter object.
pub open spec fn enc_prop(p: ParamSpecView) -> Seq<char> {
    enc_string(p.name) + ":{\"type\":"@ + enc_string(p.schema_type) + ",\"description\":"@
        + enc_string(p.description) + "}"@
}

/// The properties after the first, each behind a comma.
pub open spec fn enc_props_rest(ps: Seq<ParamSpecView>) -> Seq<char>
    decreases ps.len(),
{
    if ps.len() == 0 {
        Seq::empty()
    } else {
        ","@ + enc_prop(ps[0]) + enc_props_rest(ps.drop_first())
    }
}

/// The comma-separated properties of a parameter object.
pub open spec fn enc_props(ps: Seq<ParamSpecView>) -> Seq<char> {
    if ps.len() == 0 {
        Seq::empty()
    } else {
        enc_prop(ps[0]) + enc_props_rest(ps.drop_first())
    }
}

/// The names of the required parameters, in order.
pub open spec fn required_names(ps: Seq<ParamSpecView>) -> Seq<Seq<char>>
    decreases ps.len(),
{
    if ps.len() == 0 {
        Seq::empty()
    } else if ps[0].required {
        seq![ps[0].name] + required_names(ps.drop_first())
    } else {
        required_names(ps.drop_first())
    }
}

/// The string literals after the first, each behind a comma.
pub open spec fn enc_strings_rest(names: Seq<Seq<char>>) -> Seq<char>
    decreases names.len(),
{
    if names.len() == 0 {
        Seq::empty()
    } else {
        ","@ + enc_string(names[0]) + enc_strings_rest(names.drop_first())
    }
}

/// Comma-separated string literals.
pub open spec fn enc_strings(names: Seq<Seq<char>>) -> Seq<char> {
    if names.len() == 0 {
        Seq::empty()
    } else {
        enc_string(names[0]) + enc_strings_rest(names.drop_first())
    }
}

/// One tool definition in the wire schema of the request.
pub open spec fn enc_tool(t: ToolDefinitionView) -> Seq<char> {
    "{\"type\":\"function\",\"function\":{\"name\":"@ + enc_string(t.name)
        + ",\"description\":"@ + enc_string(t.description)
        + ",\"parameters\":{\"type\":\"object\",\"properties\":{"@ + enc_props(t.params)
        + "},\"required\":["@ + enc_strings(required_names(t.params)) + "]}}}"@
}

/// The tools after the first, each behind a comma.
pub open spec fn enc_tools_rest(ts: Seq<ToolDefinitionView>) -> Seq<char>
    decreases ts.len(),
{
    if ts.len() == 0 {
        Seq::empty()
    } else {
        ","@ + enc_tool(ts[0]) + enc_tools_rest(ts.drop_first())
    }
}

/// The tools array.
pub open spec fn enc_tools(ts: Seq<ToolDefinitionView>) -> Seq<char> {
    if ts.len() == 0 {
        "["@ + "]"@
    } else {
        "["@ + enc_tool(ts[0]) + enc_tools_rest(ts.drop_first()) + "]"@
    }
}

/// The whole request body in its canonical form: model and input first,
/// then each optional section in a fixed order.
pub open spec fn enc_request(b: RequestBodyView) -> Seq<char> {
    "{\"model\":"@ + enc_string(b.model) + ",\"input\":"@ + enc_string(b.input) + (match b
        .instructions {
        Option::Some(s) => ",\"instructions\":"@ + enc_string(s),
        Option::None => Seq::empty(),
    }) + (match b.tools {
        Option::Some(ts) => ",\"tools\":"@ + enc_tools(ts.tools) + ",\"max_tool_calls\":"@
            + enc_num(ts.max_tool_calls as nat) + ",\"tool_choice\":"@ + enc_string(
            ts.tool_choice,
        ),
        Option::None => Seq::empty(),
    }) + (match b.reasoning_effort {
        Option::Some(e) => ",\"reasoning\":{\"effort\":"@ + enc_string(e) + "}"@,
        Option::None => Seq::empty(),
    }) + "}"@
}

// ---------------------------------------------------------------------------
// Spec decoders
// ---------------------------------------------------------------------------

/// Decode one property; its `required` flag is filled in later from the
/// required-names array.
pub open spec fn dec_prop(s: Seq<char>) -> Option<(ParamSpecView, Seq<char>)> {
    match dec_string(s) {
        Option::Some((name, r1)) => match expect(r1, ":{\"type\":"@) {
            Option::Some(r2) => match dec_string(r2) {
                Option::Some((ty, r3)) => match expect(r3, ",\"description\":"@) {
                    Option::Some(r4) => match dec_string(r4) {
                        Option::Some((d, r5)) => match expect(r5, "}"@) {
                            Option::Some(r6) => Option::Some(
                                (
                                    ParamSpecView {
                                        name,
                                        schema_type: ty,
                                        description: d,
                                        required: false,
                                    },
                                    r6,
                                ),
                            ),
                            Option::None => Option::None,
                        },
                        Option::None => Option::None,
                    },
                    Option::None => Option::None,
                },
                Option::None => Option::None,
            },
            Option::None => Option::None,
        },
        Option::None => Option::None,
    }
}

/// Decoding one property consumes at least one character.
pub proof fn lemma_dec_prop_len(s: Seq<char>)
    ensures
        dec_prop(s) matches Option::Some((p, rest)) ==> rest.len() < s.len(),
{
    lemma_dec_string_len(s);
    if let Option::Some((name, r1)) = dec_string(s) {
        if let Option::Some(r2) = expect(r1, ":{\"type\":"@) {
            lemma_dec_string_len(r2);
            if let Option::Some((ty, r3)) = dec_string(r2) {
                if let Option::Some(r4) = expect(r3, ",\"description\":"@) {
                    lemma_dec_string_len(r4);
                }
            }
        }
    }
}

/// Decode the properties after the first, up to and including the closing
/// brace.
pub open spec fn dec_props_rest(s: Seq<char>) -> Option<(Seq<ParamSpecView>, Seq<char>)>
    decreases s.len(),
    via dec_props_rest_dec
{
    if s.len() == 0 {
        Option::None
    } else if s[0] == '}' {
        Option::Some((Seq::empty(), s.drop_first()))
    } else if s[0] == ',' {
        match dec_prop(s.drop_first()) {
            Option::Some((p, r)) => match dec_props_rest(r) {
                Option::Some((ps, r2)) => Option::Some((seq![p] + ps, r2)),
                Option::None => Option::None,
            },
            Option::None => Option::None,
        }
    } else {
        Option::None
    }
}

#[via_fn]
proof fn dec_props_rest_dec(s: Seq<char>) {
    if s.len() > 0 && s[0] != '}' && s[0] == ',' {
        lemma_dec_prop_len(s.drop_first());
    }
}

/// Decode a parameter object's properties, up to and including the
/// closing brace.
pub open spec fn dec_props(s: Seq<char>) -> Option<(Seq<ParamSpecView>, Seq<char>)> {
    if s.len() == 0 {
        Option::None
    } else if s[0] == '}' {
        Option::Some((Seq::empty(), s.drop_first()))
    } else {
        match dec_prop(s) {
            Option::Some((p, r)) => match dec_props_rest(r) {
                Option::Some((ps, r2)) => Option::Some((seq![p] + ps, r2)),
                Option::None => Option::None,
            },
            Option::None => Option::None,
        }
    }
}

/// Decoding the properties consumes at least the closing brace.
pub proof fn lemma_dec_props_len(s: Seq<char>)
    ensures
        dec_props(s) matches Option::Some((ps, rest)) ==> rest.len() < s.len(),
{
    if s.len() > 0 && s[0] != '}' {
        lemma_dec_prop_len(s);
        if let Option::Some((p, r)) = dec_prop(s) {
            lemma_dec_props_rest_len(r);
        }
    }
}

/// Decoding the remaining properties consumes at least the closing brace.
pub proof fn lemma_dec_props_rest_len(s: Seq<char>)
    ensures
        dec_props_rest(s) matches Option::Some((ps, rest)) ==> rest.len() < s.len(),
    decreases s.len(),
{
    if s.len() > 0 && s[0] != '}' && s[0] == ',' {
        lemma_dec_prop_len(s.drop_first());
        if let Option::Some((p, r)) = dec_prop(s.drop_first()) {
            lemma_dec_props_rest_len(r);
        }
    }
}

/// Decode the string literals after the first, up to and including the
/// closing bracket.
pub open spec fn dec_strings_rest(s: Seq<char>) -> Option<(Seq<Seq<char>>, Seq<char>)>
    decreases s.len(),
    via dec_strings_rest_dec
{
    if s.len() == 0 {
        Option::None
    } else if s[0] == ']' {
        Option::Some((Seq::empty(), s.drop_first()))
    } else if s[0] == ',' {
        match dec_string(s.drop_first()) {
            Option::Some((n, r)) => match dec_strings_rest(r) {
                Option::Some((ns, r2)) => Option::Some((seq![n] + ns, r2)),
                Option::None => Option::None,
            },
            Option::None => Option::None,
        }
    } else {
        Option::None
    }
}

#[via_fn]
proof fn dec_strings_rest_dec(s: Seq<char>) {
    if s.len() > 0 && s[0] != ']' && s[0] == ',' {
        lemma_dec_string_len(s.drop_first());
    }
}

/// Decode a string array's elements, up to and including the closing
/// bracket.
pub open spec fn dec_strings(s: Seq<char>) -> Option<(Seq<Seq<char>>, Seq<char>)> {
    if s.len() == 0 {
        Option::None
    } else if s[0] == ']' {
        Option::Some((Seq::empty(), s.drop_first()))
    } else {
        match dec_string(s) {
            Option::Some((n, r)) => match dec_strings_rest(r) {
                Option::Some((ns, r2)) => Option::Some((seq![n] + ns, r2)),
                Option::None => Option::None,
            },
            Option::None => Option::None,
        }
    }
}

/// Decoding the string array consumes at least the closing bracket.
pub proof fn lemma_dec_strings_len(s: Seq<char>)
    ensures
        dec_strings(s) matches Option::Some((ns, rest)) ==> rest.len() < s.len(),
{
    if s.len() > 0 && s[0] != ']' {
        lemma_dec_string_len(s);
        if let Option::Some((n, r)) = dec_string(s) {
            lemma_dec_strings_rest_len(r);
        }
    }
}

/// Decoding the remaining string array elements consumes at least the
/// closing bracket.
pub proof fn lemma_dec_strings_rest_len(s: Seq<char>)
    ensures
        dec_strings_rest(s) matches Option::Some((ns, rest)) ==> rest.len() < s.len(),
    decreases s.len(),
{
    if s.len() > 0 && s[0] != ']' && s[0] == ',' {
        lemma_dec_string_len(s.drop_first());
        if let Option::Some((n, r)) = dec_string(s.drop_first()) {
            lemma_dec_strings_rest_len(r);
        }
    }
}

/// Whether some name of the array equals this one.
pub open spec fn contains_name(names: Seq<Seq<char>>, n: Seq<char>) -> bool {
    exists|i: int| 0 <= i < names.len() && names[i] == n
}

/// Fill each decoded parameter's `required` flag from the required-names
/// array.
pub open spec fn apply_required(ps: Seq<ParamSpecView>, names: Seq<Seq<char>>) -> Seq<
    ParamSpecView,
> {
    ps.map_values(
        |p: ParamSpecView| ParamSpecView {
            name: p.name,
            schema_type: p.schema_type,
            description: p.description,
            required: contains_name(names, p.name),
        },
    )
}

/// Decode one tool definition.
pub open spec fn dec_tool(s: Seq<char>) -> Option<(ToolDefinitionView, Seq<char>)> {
    match expect(s, "{\"type\":\"function\",\"function\":{\"name\":"@) {
        Option::Some(r1) => match dec_string(r1) {
            Option::Some((name, r2)) => match expect(r2, ",\"description\":"@) {
                Option::Some(r3) => match dec_string(r3) {
                    Option::Some((d, r4)) => match expect(
                        r4,
                        ",\"parameters\":{\"type\":\"object\",\"properties\":{"@,
                    ) {
                        Option::Some(r5) => match dec_props(r5) {
                            Option::Some((ps, r6)) => match expect(r6, ",\"required\":["@) {
                                Option::Some(r7) => match dec_strings(r7) {
                                    Option::Some((ns, r8)) => match expect(r8, "}}}"@) {
                                        Option::Some(r9) => Option::Some(
                                            (
                                                ToolDefinitionView {
                                                    name,
                                                    description: d,
                                                    params: apply_required(ps, ns),
                                                },
                                                r9,
                                            ),
                                        ),
                                        Option::None => Option::None,
                                    },
                                    Option::None => Option::None,
                                },
                                Option::None => Option::None,
                            },
                            Option::None => Option::None,
                        },
                        Option::None => Option::None,
                    },
                    Option::None => Option::None,
                },
                Option::None => Option::None,
            },
            Option::None => Option::None,
        },
        Option::None => Option::None,
    }
}

/// Decoding one tool consumes at least one character.
pub proof fn lemma_dec_tool_len(s: Seq<char>)
    ensures
        dec_tool(s) matches Option::Some((t, rest)) ==> rest.len() < s.len(),
{
    if let Option::Some(r1) = expect(s, "{\"type\":\"function\",\"function\":{\"name\":"@) {
        lemma_dec_string_len(r1);
        if let Option::Some((name, r2)) = dec_string(r1) {
            if let Option::Some(r3) = expect(r2, ",\"description\":"@) {
                lemma_dec_string_len(r3);
                if let Option::Some((d, r4)) = dec_string(r3) {
                    if let Option::Some(r5) = expect(
                        r4,
                        ",\"parameters\":{\"type\":\"object\",\"properties\":{"@,
                    ) {
                        lemma_dec_props_len(r5);
                        if let Option::Some((ps, r6)) = dec_props(r5) {
                            if let Option::Some(r7) = expect(r6, ",\"required\":["@) {
                                lemma_dec_strings_len(r7);
                            }
                        }
                    }
                }
            }
        }
    }
}

/// Decode the tools after the first, up to and including the closing
/// bracket.
pub open spec fn dec_tools_rest(s: Seq<char>) -> Option<(Seq<ToolDefinitionView>, Seq<char>)>
    decreases s.len(),
    via dec_tools_rest_dec
{
    if s.len() == 0 {
        Option::None
    } else if s[0] == ']' {
        Option::Some((Seq::empty(), s.drop_first()))
    } else if s[0] == ',' {
        match dec_tool(s.drop_first()) {
            Option::Some((t, r)) => match dec_tools_rest(r) {
                Option::Some((ts, r2)) => Option::Some((seq![t] + ts, r2)),
                Option::None => Option::None,
            },
            Option::None => Option::None,
        }
    } else {
        Option::None
    }
}

#[via_fn]
proof fn dec_tools_rest_dec(s: Seq<char>) {
    if s.len() > 0 && s[0] != ']' && s[0] == ',' {
        lemma_dec_tool_len(s.drop_first());
    }
}

/// Decode a tools array's elements, up to and including the closing
/// bracket.
pub open spec fn dec_tools(s: Seq<char>) -> Option<(Seq<ToolDefinitionView>, Seq<char>)> {
    if s.len() == 0 {
        Option::None
    } else if s[0] == ']' {
        Option::Some((Seq::empty(), s.drop_first()))
    } else {
        match dec_tool(s) {
            Option::Some((t, r)) => match dec_tools_rest(r) {
                Option::Some((ts, r2)) => Option::Some((seq![t] + ts, r2)),
                Option::None => Option::None,
            },
            Option::None => Option::None,
        }
    }
}

/// Decode the optional instructions section.
pub open spec fn dec_opt_instructions(s: Seq<char>) -> Option<(Option<Seq<char>>, Seq<char>)> {
    match expect(s, ",\"instructions\":"@) {
        Option::Some(r) => match dec_string(r) {
            Option::Some((x, r2)) => Option::Some((Option::Some(x), r2)),
            Option::None => Option::None,
        },
        Option::None => Option::Some((Option::None, s)),
    }
}

/// Decode the optional tools section: the array, the call budget, and the
/// tool choice, together.
pub open spec fn dec_opt_tools(s: Seq<char>) -> Option<(Option<ToolsSectionView>, Seq<char>)> {
    match expect(s, ",\"tools\":["@) {
        Option::Some(r) => match dec_tools(r) {
            Option::Some((ts, r2)) => match expect(r2, ",\"max_tool_calls\":"@) {
                Option::Some(r3) => match dec_num(r3) {
                    Option::Some((n, r4)) => if n <= u32::MAX {
                        match expect(r4, ",\"tool_choice\":"@) {
                            Option::Some(r5) => match dec_string(r5) {
                                Option::Some((tc, r6)) => Option::Some(
                                    (
                                        Option::Some(
                                            ToolsSectionView {
                                                tools: ts,
                                                max_tool_calls: n as u32,
                                                tool_choice: tc,
                                            },
                                        ),
                                        r6,
                                    ),
                                ),
                                Option::None => Option::None,
                            },
                            Option::None => Option::None,
                        }
                    } else {
                        Option::None
                    },
                    Option::None => Option::None,
                },
                Option::None => Option::None,
            },
            Option::None => Option::None,
        },
        Option::None => Option::Some((Option::None, s)),
    }
}

/// Decode the optional reasoning section.
pub open spec fn dec_opt_reasoning(s: Seq<char>) -> Option<(Option<Seq<char>>, Seq<char>)> {
    match expect(s, ",\"reasoning\":{\"effort\":"@) {
        Option::Some(r) => match dec_string(r) {
            Option::Some((e, r2)) => match expect(r2, "}"@) {
                Option::Some(r3) => Option::Some((Option::Some(e), r3)),
                Option::None => Option::None,
            },
            Option::None => Option::None,
        },
        Option::None => Option::Some((Option::None, s)),
    }
}

/// Decode a whole request body in its canonical form; the text must be
/// consumed exactly.
pub open spec fn dec_request(s: Seq<char>) -> Option<RequestBodyView> {
    match expect(s, "{\"model\":"@) {
        Option::Some(r1) => match dec_string(r1) {
            Option::Some((model, r2)) => match expect(r2, ",\"input\":"@) {
                Option::Some(r3) => match dec_string(r3) {
                    Option::Some((input, r4)) => match dec_opt_instructions(r4) {
                        Option::Some((instructions, r5)) => match dec_opt_tools(r5) {
                            Option::Some((tools, r6)) => match dec_opt_reasoning(r6) {
                                Option::Some((effort, r7)) => match expect(r7, "}"@) {
                                    Option::Some(r8) => if r8.len() == 0 {
                                        Option::Some(
                                            RequestBodyView {
                                                model,
                                                input,
                                                instructions,
                                                tools,
                                                reasoning_effort: effort,
                                            },
                                        )
                                    } else {
                                        Option::None
                                    },
                                    Option::None => Option::None,
                                },
                                Option::None => Option::None,
                            },
                            Option::None => Option::None,
                        },
                        Option::None => Option::None,
                    },
                    Option::None => Option::None,
                },
                Option::None => Option::None,
            },
            Option::None => Option::None,
        },
        Option::None => Option::None,
    }
}

// ---------------------------------------------------------------------------
// Round trip: decoding undoes encoding
// ---------------------------------------------------------------------------

/// A parameter with its `required` flag cleared, as decoding first sees
/// it.
pub open spec fn clear_required(p: ParamSpecView) -> ParamSpecView {
    ParamSpecView {
        name: p.name,
        schema_type: p.schema_type,
        description: p.description,
        required: false,
    }
}

/// Every parameter with its `required` flag cleared.
pub open spec fn clear_all(ps: Seq<ParamSpecView>) -> Seq<ParamSpecView> {
    ps.map_values(|p: ParamSpecView| clear_required(p))
}

/// Parameter names are pairwise distinct.
pub open spec fn params_wf(ps: Seq<ParamSpecView>) -> bool {
    forall|i: int, j: int| 0 <= i < j < ps.len() ==> ps[i].name != ps[j].name
}

/// Every tool's parameter names are pairwise distinct.
pub open spec fn tools_wf(ts: Seq<ToolDefinitionView>) -> bool {
    forall|k: int| 0 <= k < ts.len() ==> params_wf(#[trigger] ts[k].params)
}

/// A request whose tools, if any, are well formed.
pub open spec fn request_wf(b: RequestBodyView) -> bool {
    match b.tools {
        Option::Some(ts) => tools_wf(ts.tools),
        Option::None => true,
    }
}

/// Decoding one encoded property yields the property, required flag
/// cleared.
proof fn lemma_dec_enc_prop(p: ParamSpecView, rest: Seq<char>)
    ensures
        dec_prop(enc_prop(p) + rest) == Option::Some((clear_required(p), rest)),
{
    let t5 = "}"@ + rest;
    let t4 = enc_string(p.description) + t5;
    let t3 = ",\"description\":"@ + t4;
    let t2 = enc_string(p.schema_type) + t3;
    let t1 = ":{\"type\":"@ + t2;
    assert(enc_prop(p) + rest =~= enc_string(p.name) + t1);
    lemma_dec_enc_string(p.name, t1);
    lemma_expect(":{\"type\":"@, t2);
    lemma_dec_enc_string(p.schema_type, t3);
    lemma_expect(",\"description\":"@, t4);
    lemma_dec_enc_string(p.description, t5);
    lemma_expect("}"@, rest);
}

/// An encoded string literal begins with a quote.
proof fn lemma_enc_string_first(x: Seq<char>)
    ensures
        enc_string(x).len() >= 2,
        enc_string(x)[0] == '"',
{
}

/// Decoding the encoded remaining properties, behind the closing brace,
/// yields them all.
proof fn lemma_dec_enc_props_rest(ps: Seq<ParamSpecView>, rest: Seq<char>)
    ensures
        dec_props_rest(enc_props_rest(ps) + seq!['}'] + rest) == Option::Some(
            (clear_all(ps), rest),
        ),
    decreases ps.len(),
{
    let s = enc_props_rest(ps) + seq!['}'] + rest;
    if ps.len() == 0 {
        assert(s =~= seq!['}'] + rest);
        assert(s[0] == '}');
        assert(s.drop_first() =~= rest);
        assert(clear_all(ps) =~= Seq::<ParamSpecView>::empty());
    } else {
        let tail = ps.drop_first();
        let inner = enc_props_rest(tail) + seq!['}'] + rest;
        reveal_strlit(",");
        assert(s =~= ","@ + (enc_prop(ps[0]) + inner));
        assert(s[0] == ',');
        assert(s[0] != '}');
        assert(s.drop_first() =~= enc_prop(ps[0]) + inner);
        lemma_dec_enc_prop(ps[0], inner);
        lemma_dec_enc_props_rest(tail, rest);
        assert(clear_all(ps) =~= seq![clear_required(ps[0])] + clear_all(tail));
    }
}

/// Decoding the encoded properties, behind the closing brace, yields them
/// all.
proof fn lemma_dec_enc_props(ps: Seq<ParamSpecView>, rest: Seq<char>)
    ensures
        dec_props(enc_props(ps) + seq!['}'] + rest) == Option::Some((clear_all(ps), rest)),
{
    let s = enc_props(ps) + seq!['}'] + rest;
    if ps.len() == 0 {
        assert(s =~= seq!['}'] + rest);
        assert(s[0] == '}');
        assert(s.drop_first() =~= rest);
        assert(clear_all(ps) =~= Seq::<ParamSpecView>::empty());
    } else {
        let tail = ps.drop_first();
        let inner = enc_props_rest(tail) + seq!['}'] + rest;
        assert(s =~= enc_prop(ps[0]) + inner);
        lemma_enc_string_first(ps[0].name);
        assert(s[0] == enc_string(ps[0].name)[0]);
        assert(s[0] == '"');
        assert(s[0] != '}');
        lemma_dec_enc_prop(ps[0], inner);
        lemma_dec_enc_props_rest(tail, rest);
        assert(clear_all(ps) =~= seq![clear_required(ps[0])] + clear_all(tail));
    }
}

/// Decoding the encoded remaining names, behind the closing bracket,
/// yields them all.
proof fn lemma_dec_enc_strings_rest(names: Seq<Seq<char>>, rest: Seq<char>)
    ensures
        dec_strings_rest(enc_strings_rest(names) + seq![']'] + rest) == Option::Some(
            (names, rest),
        ),
    decreases names.len(),
{
    let s = enc_strings_rest(names) + seq![']'] + rest;
    if names.len() == 0 {
        assert(s =~= seq![']'] + rest);
        assert(s[0] == ']');
        assert(s.drop_first() =~= rest);
    } else {
        let tail = names.drop_first();
        let inner = enc_strings_rest(tail) + seq![']'] + rest;
        reveal_strlit(",");
        assert(s =~= ","@ + (enc_string(names[0]) + inner));
        assert(s[0] == ',');
        assert(s[0] != ']');
        assert(s.drop_first() =~= enc_string(names[0]) + inner);
        lemma_dec_enc_string(names[0], inner);
        lemma_dec_enc_strings_rest(tail, rest);
        assert(seq![names[0]] + tail =~= names);
    }
}

/// Decoding the encoded names, behind the closing bracket, yields them
/// all.
proof fn lemma_dec_enc_strings(names: Seq<Seq<char>>, rest: Seq<char>)
    ensures
        dec_strings(enc_strings(names) + seq![']'] + rest) == Option::Some((names, rest)),
{
    let s = enc_strings(names) + seq![']'] + rest;
    if names.len() == 0 {
        assert(s =~= seq![']'] + rest);
        assert(s[0] == ']');
        assert(s.drop_first() =~= rest);
    } else {
        let tail = names.drop_first();
        let inner = enc_strings_rest(tail) + seq![']'] + rest;
        assert(s =~= enc_string(names[0]) + inner);
        lemma_enc_string_first(names[0]);
        assert(s[0] == '"');
        assert(s[0] != ']');
        lemma_dec_enc_string(names[0], inner);
        lemma_dec_enc_strings_rest(tail, rest);
        assert(seq![names[0]] + tail =~= names);
    }
}

/// A name is among the required names exactly when some required
/// parameter carries it.
proof fn lemma_required_names_iff(ps: Seq<ParamSpecView>, n: Seq<char>)
    ensures
        contains_name(required_names(ps), n) <==> exists|j: int|
            0 <= j < ps.len() && ps[j].required && ps[j].name == n,
    decreases ps.len(),
{
    if ps.len() > 0 {
        let tail = ps.drop_first();
        lemma_required_names_iff(tail, n);
        let rn = required_names(ps);
        if ps[0].required {
            assert(rn == seq![ps[0].name] + required_names(tail));
            if contains_name(rn, n) {
                let i = choose|i: int| 0 <= i < rn.len() && rn[i] == n;
                if i == 0 {
                    assert(ps[0].required && ps[0].name == n);
                } else {
                    assert(required_names(tail)[i - 1] == n);
                    assert(contains_name(required_names(tail), n));
                    let j = choose|j: int|
                        0 <= j < tail.len() && tail[j].required && tail[j].name == n;
                    assert(ps[j + 1].required && ps[j + 1].name == n);
                }
            }
            if exists|j: int| 0 <= j < ps.len() && ps[j].required && ps[j].name == n {
                let j = choose|j: int| 0 <= j < ps.len() && ps[j].required && ps[j].name == n;
                if j == 0 {
                    assert(rn[0] == n);
                } else {
                    assert(tail[j - 1].required && tail[j - 1].name == n);
                    let i = choose|i: int|
                        0 <= i < required_names(tail).len() && required_names(tail)[i] == n;
                    assert(rn[i + 1] == n);
                }
            }
        } else {
            assert(rn == required_names(tail));
            if contains_name(rn, n) {
                let j = choose|j: int|
                    0 <= j < tail.len() && tail[j].required && tail[j].name == n;
                assert(ps[j + 1].required && ps[j + 1].name == n);
            }
            if exists|j: int| 0 <= j < ps.len() && ps[j].required && ps[j].name == n {
                let j = choose|j: int| 0 <= j < ps.len() && ps[j].required && ps[j].name == n;
                assert(j != 0);
                assert(tail[j - 1].required && tail[j - 1].name == n);
            }
        }
    }
}

/// Refilling the required flags from the required-names array restores
/// the parameters, when their names are distinct.
proof fn lemma_apply_required(ps: Seq<ParamSpecView>)
    requires
        params_wf(ps),
    ensures
        apply_required(clear_all(ps), required_names(ps)) =~= ps,
{
    let out = apply_required(clear_all(ps), required_names(ps));
    assert forall|i: int| 0 <= i < ps.len() implies out[i] == ps[i] by {
        assert(clear_all(ps)[i] == clear_required(ps[i]));
        lemma_required_names_iff(ps, ps[i].name);
        if ps[i].required {
            assert(contains_name(required_names(ps), ps[i].name));
        } else {
            if contains_name(required_names(ps), ps[i].name) {
                let j = choose|j: int|
                    0 <= j < ps.len() && ps[j].required && ps[j].name == ps[i].name;
                assert(j != i);
                assert(false);
            }
        }
    }
}

/// Decoding one encoded tool yields the tool, when its parameter names
/// are distinct.
#[verifier::rlimit(100)]
#[verifier::spinoff_prover]
proof fn lemma_dec_enc_tool(t: ToolDefinitionView, rest: Seq<char>)
    requires
        params_wf(t.params),
    ensures
        dec_tool(enc_tool(t) + rest) == Option::Some((t, rest)),
{
    let lit_head = "{\"type\":\"function\",\"function\":{\"name\":"@;
    let lit_desc = ",\"description\":"@;
    let lit_params = ",\"parameters\":{\"type\":\"object\",\"properties\":{"@;
    let lit_req = ",\"required\":["@;
    let lit_close = "}}}"@;
    let t8 = lit_close + rest;
    let t7 = enc_strings(required_names(t.params)) + (seq![']'] + t8);
    let t6 = lit_req + (enc_strings(required_names(t.params)) + ("]}}}"@ + rest));
    let t5 = enc_props(t.params) + (seq!['}'] + t6);
    let t4 = lit_params + t5;
    let t3 = enc_string(t.description) + t4;
    let t2 = lit_desc + t3;
    let t1 = enc_string(t.name) + t2;
    reveal_strlit("},\"required\":[");
    reveal_strlit(",\"required\":[");
    reveal_strlit("]}}}");
    reveal_strlit("}}}");
    assert(enc_tool(t) + rest =~= lit_head + t1);
    lemma_expect(lit_head, t1);
    lemma_dec_enc_string(t.name, t2);
    lemma_expect(lit_desc, t3);
    lemma_dec_enc_string(t.description, t4);
    lemma_expect(lit_params, t5);
    assert(t5 =~= enc_props(t.params) + seq!['}'] + t6);
    lemma_dec_enc_props(t.params, t6);
    lemma_expect(lit_req, enc_strings(required_names(t.params)) + ("]}}}"@ + rest));
    assert(enc_strings(required_names(t.params)) + ("]}}}"@ + rest) =~= enc_strings(
        required_names(t.params),
    ) + seq![']'] + t8);
    lemma_dec_enc_strings(required_names(t.params), t8);
    lemma_expect(lit_close, rest);
    lemma_apply_required(t.params);
    assert(dec_tool(enc_tool(t) + rest) == Option::Some((t, rest)));
}

/// Decoding the encoded remaining tools, behind the closing bracket,
/// yields them all.
#[verifier::rlimit(100)]
#[verifier::spinoff_prover]
proof fn lemma_dec_enc_tools_rest(ts: Seq<ToolDefinitionView>, rest: Seq<char>)
    requires
        tools_wf(ts),
    ensures
        dec_tools_rest(enc_tools_rest(ts) + seq![']'] + rest) == Option::Some((ts, rest)),
    decreases ts.len(),
{
    let s = enc_tools_rest(ts) + seq![']'] + rest;
    if ts.len() == 0 {
        assert(s =~= seq![']'] + rest);
        assert(s[0] == ']');
        assert(s.drop_first() =~= rest);
        assert(ts =~= Seq::<ToolDefinitionView>::empty());
    } else {
        let tail = ts.drop_first();
        let inner = enc_tools_rest(tail) + seq![']'] + rest;
        reveal_strlit(",");
        assert(s =~= ","@ + (enc_tool(ts[0]) + inner));
        assert(s[0] == ',');
        assert(s[0] != ']');
        assert(s.drop_first() =~= enc_tool(ts[0]) + inner);
        assert(params_wf(ts[0].params));
        lemma_dec_enc_tool(ts[0], inner);
        assert(tools_wf(tail)) by {
            assert forall|k: int| 0 <= k < tail.len() implies params_wf(
                #[trigger] tail[k].params,
            ) by {
                assert(tail[k] == ts[k + 1]);
            }
        }
        lemma_dec_enc_tools_rest(tail, rest);
        assert(seq![ts[0]] + tail =~= ts);
    }
}

/// An encoded tool begins with an opening brace.
proof fn lemma_enc_tool_first(t: ToolDefinitionView)
    ensures
        enc_tool(t).len() >= 1,
        enc_tool(t)[0] == '{',
{
    reveal_strlit("{\"type\":\"function\",\"function\":{\"name\":");
    assert(enc_tool(t)[0] == "{\"type\":\"function\",\"function\":{\"name\":"@[0]);
}

/// Concatenation of sequences is associative.
proof fn seq_assoc(a: Seq<char>, b: Seq<char>, c: Seq<char>)
    ensures
        (a + b) + c == a + (b + c),
{
    assert((a + b) + c =~= a + (b + c));
}

/// Decoding the encoded tools array, behind the closing bracket, yields
/// them all.
#[verifier::rlimit(100)]
#[verifier::spinoff_prover]
proof fn lemma_dec_enc_tools(ts: Seq<ToolDefinitionView>, rest: Seq<char>)
    requires
        tools_wf(ts),
    ensures
        dec_tools(enc_tools_inner(ts) + seq![']'] + rest) == Option::Some((ts, rest)),
{
    let s = enc_tools_inner(ts) + seq![']'] + rest;
    if ts.len() == 0 {
        assert(s =~= seq![']'] + rest);
        assert(s[0] == ']');
        assert(s.drop_first() =~= rest);
        assert(ts =~= Seq::<ToolDefinitionView>::empty());
    } else {
        let tail = ts.drop_first();
        let a = enc_tool(ts[0]);
        let b = enc_tools_rest(tail);
        let inner = b + seq![']'] + rest;
        assert(enc_tools_inner(ts) == a + b);
        seq_assoc(a + b, seq![']'], rest);
        seq_assoc(a, b, seq![']'] + rest);
        seq_assoc(b, seq![']'], rest);
        assert(s == a + inner);
        lemma_enc_tool_first(ts[0]);
        assert(s[0] == a[0]);
        assert(s[0] != ']');
        assert(params_wf(ts[0].params));
        lemma_dec_enc_tool(ts[0], inner);
        assert(tools_wf(tail)) by {
            assert forall|k: int| 0 <= k < tail.len() implies params_wf(
                #[trigger] tail[k].params,
            ) by {
                assert(tail[k] == ts[k + 1]);
            }
        }
        lemma_dec_enc_tools_rest(tail, rest);
        assert(seq![ts[0]] + tail =~= ts);
    }
}

/// The body of the tools array: everything between the brackets.
pub open spec fn enc_tools_inner(ts: Seq<ToolDefinitionView>) -> Seq<char> {
    if ts.len() == 0 {
        Seq::empty()
    } else {
        enc_tool(ts[0]) + enc_tools_rest(ts.drop_first())
    }
}

/// The tools array is its bracketed body.
proof fn lemma_enc_tools_inner(ts: Seq<ToolDefinitionView>)
    ensures
        enc_tools(ts) =~= seq!['['] + enc_tools_inner(ts) + seq![']'],
{
    reveal_strlit("[");
    reveal_strlit("]");
}

/// Expecting a literal fails when the text is too short or differs at
/// some position.
proof fn lemma_expect_fail(s: Seq<char>, lit: Seq<char>, k: int)
    requires
        0 <= k < lit.len(),
        s.len() < lit.len() || (k < s.len() && s[k] != lit[k]),
    ensures
        expect(s, lit) is None,
{
    if lit.len() <= s.len() && s.take(lit.len() as int) == lit {
        assert(s.take(lit.len() as int)[k] == s[k]);
    }
}

/// The encoded instructions section, possibly empty.
pub open spec fn seg_ins(o: Option<Seq<char>>) -> Seq<char> {
    match o {
        Option::Some(s) => ",\"instructions\":"@ + enc_string(s),
        Option::None => Seq::empty(),
    }
}

/// The encoded tools section, possibly empty.
pub open spec fn seg_tools(o: Option<ToolsSectionView>) -> Seq<char> {
    match o {
        Option::Some(ts) => ",\"tools\":"@ + enc_tools(ts.tools) + ",\"max_tool_calls\":"@
            + enc_num(ts.max_tool_calls as nat) + ",\"tool_choice\":"@ + enc_string(
            ts.tool_choice,
        ),
        Option::None => Seq::empty(),
    }
}

/// The encoded reasoning section, possibly empty.
pub open spec fn seg_rea(o: Option<Seq<char>>) -> Seq<char> {
    match o {
        Option::Some(e) => ",\"reasoning\":{\"effort\":"@ + enc_string(e) + "}"@,
        Option::None => Seq::empty(),
    }
}

/// Decoding the encoded instructions section yields it, when an absent
/// section cannot be mistaken for a present one.
proof fn lemma_opt_ins(o: Option<Seq<char>>, t: Seq<char>)
    requires
        o is None ==> expect(t, ",\"instructions\":"@) is None,
    ensures
        dec_opt_instructions(seg_ins(o) + t) == Option::Some((o, t)),
{
    match o {
        Option::Some(x) => {
            let inner = enc_string(x) + t;
            assert(seg_ins(o) + t =~= ",\"instructions\":"@ + inner);
            lemma_expect(",\"instructions\":"@, inner);
            lemma_dec_enc_string(x, t);
        },
        Option::None => {
            assert(seg_ins(o) + t =~= t);
        },
    }
}

/// Decoding the encoded tools section yields it, when the tools are well
/// formed and an absent section cannot be mistaken for a present one.
#[verifier::rlimit(100)]
#[verifier::spinoff_prover]
proof fn lemma_opt_tools(o: Option<ToolsSectionView>, t: Seq<char>)
    requires
        (o matches Option::Some(ts) ==> tools_wf(ts.tools)),
        o is None ==> expect(t, ",\"tools\":["@) is None,
    ensures
        dec_opt_tools(seg_tools(o) + t) == Option::Some((o, t)),
{
    match o {
        Option::Some(ts) => {
            reveal_strlit(",\"tools\":");
            reveal_strlit(",\"tools\":[");
            reveal_strlit(",\"max_tool_calls\":");
            reveal_strlit(",\"tool_choice\":");
            lemma_enc_tools_inner(ts.tools);
            let t_tc = enc_string(ts.tool_choice) + t;
            let t_num = ",\"tool_choice\":"@ + t_tc;
            let t_max = enc_num(ts.max_tool_calls as nat) + t_num;
            let t_arr = ",\"max_tool_calls\":"@ + t_max;
            let t_in = enc_tools_inner(ts.tools) + (seq![']'] + t_arr);
            assert(seg_tools(o) + t =~= ",\"tools\":["@ + t_in);
            lemma_expect(",\"tools\":["@, t_in);
            assert(t_in =~= enc_tools_inner(ts.tools) + seq![']'] + t_arr);
            lemma_dec_enc_tools(ts.tools, t_arr);
            lemma_expect(",\"max_tool_calls\":"@, t_max);
            assert(t_num[0] == ',');
            assert(!crate::codec::is_digit(','));
            crate::codec::lemma_dec_enc_num(ts.max_tool_calls as nat, t_num);
            lemma_expect(",\"tool_choice\":"@, t_tc);
            lemma_dec_enc_string(ts.tool_choice, t);
        },
        Option::None => {
            assert(seg_tools(o) + t =~= t);
        },
    }
}

/// Decoding the encoded reasoning section yields it, when an absent
/// section cannot be mistaken for a present one.
proof fn lemma_opt_rea(o: Option<Seq<char>>, t: Seq<char>)
    requires
        o is None ==> expect(t, ",\"reasoning\":{\"effort\":"@) is None,
    ensures
        dec_opt_reasoning(seg_rea(o) + t) == Option::Some((o, t)),
{
    match o {
        Option::Some(e) => {
            let t_close = "}"@ + t;
            let inner = enc_string(e) + t_close;
            assert(seg_rea(o) + t =~= ",\"reasoning\":{\"effort\":"@ + inner);
            lemma_expect(",\"reasoning\":{\"effort\":"@, inner);
            lemma_dec_enc_string(e, t_close);
            lemma_expect("}"@, t);
        },
        Option::None => {
            assert(seg_rea(o) + t =~= t);
        },
    }
}

/// What a continuation that starts with the tools or reasoning section,
/// or with the final brace, cannot be mistaken for.
proof fn lemma_later_sections(
    tools: Option<ToolsSectionView>,
    rea: Option<Seq<char>>,
)
    ensures
        expect(seg_tools(tools) + (seg_rea(rea) + "}"@), ",\"instructions\":"@) is None,
        tools is None ==> expect(seg_rea(rea) + "}"@, ",\"tools\":["@) is None,
        rea is None ==> expect("}"@, ",\"reasoning\":{\"effort\":"@) is None,
{
    reveal_strlit(",\"instructions\":");
    reveal_strlit(",\"tools\":");
    reveal_strlit(",\"tools\":[");
    reveal_strlit(",\"reasoning\":{\"effort\":");
    reveal_strlit("}");
    let t_rea = seg_rea(rea) + "}"@;
    let t_all = seg_tools(tools) + t_rea;
    match tools {
        Option::Some(ts) => {
            assert(t_all[2] == ",\"tools\":"@[2]);
            assert(t_all[2] == 't');
            lemma_expect_fail(t_all, ",\"instructions\":"@, 2);
        },
        Option::None => {
            assert(t_all =~= t_rea);
            match rea {
                Option::Some(e) => {
                    assert(t_rea[2] == ",\"reasoning\":{\"effort\":"@[2]);
                    assert(t_rea[2] == 'r');
                    lemma_expect_fail(t_rea, ",\"instructions\":"@, 2);
                    lemma_expect_fail(t_rea, ",\"tools\":["@, 2);
                },
                Option::None => {
                    assert(t_rea =~= "}"@);
                    assert(t_rea.len() == 1);
                    lemma_expect_fail(t_rea, ",\"instructions\":"@, 2);
                    lemma_expect_fail(t_rea, ",\"tools\":["@, 2);
                },
            }
        },
    }
    if rea is None {
        assert(("}"@).len() == 1);
        lemma_expect_fail("}"@, ",\"reasoning\":{\"effort\":"@, 2);
    }
}

/// Law: parsing a serialized request body yields the request back, field
/// for field, whenever each tool's parameter names are distinct.
#[verifier::rlimit(100)]
#[verifier::spinoff_prover]
pub proof fn lemma_request_round_trip(b: RequestBodyView)
    requires
        request_wf(b),
    ensures
        dec_request(enc_request(b)) == Option::Some(b),
{
    let t_rea = seg_rea(b.reasoning_effort) + "}"@;
    let t_tools = seg_tools(b.tools) + t_rea;
    let t_ins = seg_ins(b.instructions) + t_tools;
    let t_input = enc_string(b.input) + t_ins;
    let t_lit_input = ",\"input\":"@ + t_input;
    let t_model = enc_string(b.model) + t_lit_input;
    assert(enc_request(b) =~= "{\"model\":"@ + t_model);
    lemma_expect("{\"model\":"@, t_model);
    lemma_dec_enc_string(b.model, t_lit_input);
    lemma_expect(",\"input\":"@, t_input);
    lemma_dec_enc_string(b.input, t_ins);
    lemma_later_sections(b.tools, b.reasoning_effort);
    lemma_opt_ins(b.instructions, t_tools);
    lemma_opt_tools(b.tools, t_rea);
    lemma_opt_rea(b.reasoning_effort, "}"@);
    lemma_expect("}"@, Seq::empty());
    assert(("}"@ + Seq::<char>::empty()) =~= "}"@);
    assert(expect("}"@, "}"@) == Option::Some(Seq::<char>::empty()));
}

// ---------------------------------------------------------------------------
// Exec serializer
// ---------------------------------------------------------------------------

/// Append one encoded property.
fn push_prop(out: &mut Vec<char>, p: &ParamSpec)
    ensures
        final(out)@ == old(out)@ + enc_prop(p@),
{
    push_string(out, p.name.as_str());
    push_chars(out, ":{\"type\":");
    push_string(out, p.schema_type.as_str());
    push_chars(out, ",\"description\":");
    push_string(out, p.description.as_str());
    push_chars(out, "}");
    proof {
        assert(out@ =~= old(out)@ + enc_prop(p@));
    }
}

/// Append the encoded properties from `i` on, each behind a comma.
fn push_props_rest(out: &mut Vec<char>, ps: &Vec<ParamSpec>, i: usize)
    requires
        i <= ps@.len(),
    ensures
        final(out)@ == old(out)@ + enc_props_rest(params_view(ps@).skip(i as int)),
    decreases ps@.len() - i,
{
    let ghost pv = params_view(ps@);
    if i < ps.len() {
        proof {
            assert(pv.skip(i as int).len() > 0);
            assert(pv.skip(i as int)[0] == pv[i as int]);
            assert(pv.skip(i as int).drop_first() =~= pv.skip(i + 1 as int));
        }
        push_chars(out, ",");
        push_prop(out, &ps[i]);
        push_props_rest(out, ps, i + 1);
        proof {
            assert(out@ =~= old(out)@ + enc_props_rest(pv.skip(i as int)));
        }
    } else {
        proof {
            assert(pv.skip(i as int).len() == 0);
            assert(out@ =~= old(out)@ + enc_props_rest(pv.skip(i as int)));
        }
    }
}

/// Append the encoded properties of a parameter object.
fn push_props(out: &mut Vec<char>, ps: &Vec<ParamSpec>)
    ensures
        final(out)@ == old(out)@ + enc_props(params_view(ps@)),
{
    let ghost pv = params_view(ps@);
    if ps.len() > 0 {
        proof {
            assert(pv[0] == ps@[0]@);
            assert(pv.drop_first() =~= pv.skip(1));
        }
        push_prop(out, &ps[0]);
        push_props_rest(out, ps, 1);
        proof {
            assert(out@ =~= old(out)@ + enc_props(pv));
        }
    } else {
        proof {
            assert(out@ =~= old(out)@ + enc_props(pv));
        }
    }
}

/// The names of the required parameters from `i` on, in order.
fn collect_required(ps: &Vec<ParamSpec>, i: usize) -> (r: Vec<String>)
    requires
        i <= ps@.len(),
    ensures
        strs_view(r@) == required_names(params_view(ps@).skip(i as int)),
    decreases ps@.len() - i,
{
    let ghost pv = params_view(ps@);
    if i < ps.len() {
        proof {
            assert(pv.skip(i as int).len() > 0);
            assert(pv.skip(i as int)[0] == pv[i as int]);
            assert(pv.skip(i as int).drop_first() =~= pv.skip(i + 1 as int));
        }
        let mut rest = collect_required(ps, i + 1);
        if ps[i].required {
            let ghost prev = rest@;
            rest.insert(0, ps[i].name.clone());
            proof {
                assert(rest@ =~= seq![ps@[i as int].name] + prev);
                assert forall|k: int| 0 <= k < rest@.len() implies strs_view(rest@)[k]
                    == required_names(pv.skip(i as int))[k] by {
                    assert(strs_view(rest@)[k] == rest@[k]@);
                    if k > 0 {
                        assert(rest@[k] == prev[k - 1]);
                        assert(strs_view(prev)[k - 1] == prev[k - 1]@);
                    }
                }
                assert(strs_view(rest@) =~= required_names(pv.skip(i as int)));
            }
        }
        rest
    } else {
        proof {
            assert(pv.skip(i as int).len() == 0);
            assert(strs_view(Seq::<String>::empty()) =~= required_names(pv.skip(i as int)));
        }
        Vec::new()
    }
}

/// Append the encoded names from `i` on, each behind a comma.
fn push_strings_rest(out: &mut Vec<char>, names: &Vec<String>, i: usize)
    requires
        i <= names@.len(),
    ensures
        final(out)@ == old(out)@ + enc_strings_rest(strs_view(names@).skip(i as int)),
    decreases names@.len() - i,
{
    let ghost nv = strs_view(names@);
    if i < names.len() {
        proof {
            assert(nv.skip(i as int).len() > 0);
            assert(nv.skip(i as int)[0] == nv[i as int]);
            assert(nv[i as int] == names@[i as int]@);
            assert(nv.skip(i as int).drop_first() =~= nv.skip(i + 1 as int));
        }
        push_chars(out, ",");
        push_string(out, names[i].as_str());
        push_strings_rest(out, names, i + 1);
        proof {
            assert(out@ =~= old(out)@ + enc_strings_rest(nv.skip(i as int)));
        }
    } else {
        proof {
            assert(nv.skip(i as int).len() == 0);
            assert(out@ =~= old(out)@ + enc_strings_rest(nv.skip(i as int)));
        }
    }
}

/// Append the encoded comma-separated names.
fn push_strings(out: &mut Vec<char>, names: &Vec<String>)
    ensures
        final(out)@ == old(out)@ + enc_strings(strs_view(names@)),
{
    let ghost nv = strs_view(names@);
    if names.len() > 0 {
        proof {
            assert(nv[0] == names@[0]@);
            assert(nv.drop_first() =~= nv.skip(1));
        }
        push_string(out, names[0].as_str());
        push_strings_rest(out, names, 1);
        proof {
            assert(out@ =~= old(out)@ + enc_strings(nv));
        }
    } else {
        proof {
            assert(out@ =~= old(out)@ + enc_strings(nv));
        }
    }
}

/// Append one encoded tool definition.
#[verifier::rlimit(100)]
#[verifier::spinoff_prover]
fn push_tool(out: &mut Vec<char>, t: &ToolDefinition)
    ensures
        final(out)@ == old(out)@ + enc_tool(t@),
{
    push_chars(out, "{\"type\":\"function\",\"function\":{\"name\":");
    push_string(out, t.name.as_str());
    push_chars(out, ",\"description\":");
    push_string(out, t.description.as_str());
    push_chars(out, ",\"parameters\":{\"type\":\"object\",\"properties\":{");
    push_props(out, &t.params);
    push_chars(out, "},\"required\":[");
    let req = collect_required(&t.params, 0);
    proof {
        assert(params_view(t.params@).skip(0) =~= params_view(t.params@));
    }
    push_strings(out, &req);
    push_chars(out, "]}}}");
    proof {
        assert(out@ =~= old(out)@ + enc_tool(t@));
    }
}

/// Append the encoded tools from `i` on, each behind a comma.
fn push_tools_rest(out: &mut Vec<char>, ts: &Vec<ToolDefinition>, i: usize)
    requires
        i <= ts@.len(),
    ensures
        final(out)@ == old(out)@ + enc_tools_rest(tools_view(ts@).skip(i as int)),
    decreases ts@.len() - i,
{
    let ghost tv = tools_view(ts@);
    if i < ts.len() {
        proof {
            assert(tv.skip(i as int).len() > 0);
            assert(tv.skip(i as int)[0] == tv[i as int]);
            assert(tv[i as int] == ts@[i as int]@);
            assert(tv.skip(i as int).drop_first() =~= tv.skip(i + 1 as int));
        }
        push_chars(out, ",");
        push_tool(out, &ts[i]);
        push_tools_rest(out, ts, i + 1);
        proof {
            assert(out@ =~= old(out)@ + enc_tools_rest(tv.skip(i as int)));
        }
    } else {
        proof {
            assert(tv.skip(i as int).len() == 0);
            assert(out@ =~= old(out)@ + enc_tools_rest(tv.skip(i as int)));
        }
    }
}

/// Append the encoded tools array.
fn push_tools(out: &mut Vec<char>, ts: &Vec<ToolDefinition>)
    ensures
        final(out)@ == old(out)@ + enc_tools(tools_view(ts@)),
{
    let ghost tv = tools_view(ts@);
    push_chars(out, "[");
    if ts.len() > 0 {
        proof {
            assert(tv[0] == ts@[0]@);
            assert(tv.drop_first() =~= tv.skip(1));
        }
        push_tool(out, &ts[0]);
        push_tools_rest(out, ts, 1);
    }
    push_chars(out, "]");
    proof {
        assert(out@ =~= old(out)@ + enc_tools(tv));
    }
}

/// Serialize a request body into its canonical wire form, as
/// `enc_request` states it.
#[verifier::rlimit(100)]
#[verifier::spinoff_prover]
pub fn serialize_request(b: &RequestBody) -> (r: String)
    ensures
        r@ == enc_request(b@),
{
    let mut out: Vec<char> = Vec::new();
    push_chars(&mut out, "{\"model\":");
    push_string(&mut out, b.model.as_str());
    push_chars(&mut out, ",\"input\":");
    push_string(&mut out, b.input.as_str());
    match &b.instructions {
        Option::Some(ins) => {
            push_chars(&mut out, ",\"instructions\":");
            push_string(&mut out, ins.as_str());
        },
        Option::None => {},
    }
    match &b.tools {
        Option::Some(ts) => {
            push_chars(&mut out, ",\"tools\":");
            push_tools(&mut out, &ts.tools);
            push_chars(&mut out, ",\"max_tool_calls\":");
            push_num(&mut out, ts.max_tool_calls);
            push_chars(&mut out, ",\"tool_choice\":");
            push_string(&mut out, ts.tool_choice.as_str());
        },
        Option::None => {},
    }
    match &b.reasoning_effort {
        Option::Some(e) => {
            push_chars(&mut out, ",\"reasoning\":{\"effort\":");
            push_string(&mut out, e.as_str());
            push_chars(&mut out, "}");
        },
        Option::None => {},
    }
    push_chars(&mut out, "}");
    proof {
        assert(out@ =~= enc_request(b@));
    }
    chars_to_string(&out)
}

// ---------------------------------------------------------------------------
// Exec parser of the canonical form
// ---------------------------------------------------------------------------

/// Parse one property starting at `i`, as `dec_prop` states it.
fn parse_prop(s: &str, i: usize) -> (r: Option<(ParamSpec, usize)>)
    requires
        i <= s@.len(),
    ensures
        match r {
            Option::Some((p, j)) => i <= j <= s@.len() && dec_prop(s@.skip(i as int))
                == Option::Some((p@, s@.skip(j as int))),
            Option::None => dec_prop(s@.skip(i as int)) is None,
        },
{
    match parse_string(s, i) {
        Option::Some((name, j1)) => match parse_lit(s, j1, ":{\"type\":") {
            Option::Some(j2) => match parse_string(s, j2) {
                Option::Some((ty, j3)) => match parse_lit(s, j3, ",\"description\":") {
                    Option::Some(j4) => match parse_string(s, j4) {
                        Option::Some((d, j5)) => match parse_lit(s, j5, "}") {
                            Option::Some(j6) => Option::Some(
                                (
                                    ParamSpec {
                                        name,
                                        schema_type: ty,
                                        description: d,
                                        required: false,
                                    },
                                    j6,
                                ),
                            ),
                            Option::None => Option::None,
                        },
                        Option::None => Option::None,
                    },
                    Option::None => Option::None,
                },
                Option::None => Option::None,
            },
            Option::None => Option::None,
        },
        Option::None => Option::None,
    }
}

/// Whether the character at `j` exists and equals `c`.
fn char_at_is(s: &str, j: usize, c: char) -> (r: bool)
    requires
        j <= s@.len(),
    ensures
        r == (j < s@.len() && s@[j as int] == c),
{
    if j >= s.unicode_len() {
        return false;
    }
    s.get_char(j) == c
}

/// Parse the remaining properties starting at `i`, as `dec_props_rest`
/// states it.
fn parse_props_rest(s: &str, i: usize) -> (r: Option<(Vec<ParamSpec>, usize)>)
    requires
        i <= s@.len(),
    ensures
        match r {
            Option::Some((ps, j)) => i <= j <= s@.len() && dec_props_rest(s@.skip(i as int))
                == Option::Some((params_view(ps@), s@.skip(j as int))),
            Option::None => dec_props_rest(s@.skip(i as int)) is None,
        },
    decreases s@.len() - i,
{
    let slen = s.unicode_len();
    let ghost suf = s@.skip(i as int);
    if char_at_is(s, i, '}') {
        proof {
            assert(suf[0] == s@[i as int]);
            assert(suf.drop_first() =~= s@.skip(i + 1 as int));
            assert(params_view(Seq::<ParamSpec>::empty()) =~= Seq::<ParamSpecView>::empty());
        }
        return Option::Some((Vec::new(), i + 1));
    }
    if !char_at_is(s, i, ',') {
        proof {
            if suf.len() > 0 {
                assert(suf[0] == s@[i as int]);
            }
        }
        return Option::None;
    }
    proof {
        assert(suf[0] == s@[i as int]);
        assert(suf.drop_first() =~= s@.skip(i + 1 as int));
    }
    match parse_prop(s, i + 1) {
        Option::Some((p, j1)) => {
            proof {
                lemma_dec_prop_len(s@.skip(i + 1 as int));
            }
            match parse_props_rest(s, j1) {
                Option::Some((mut ps, j2)) => {
                    let ghost prev = ps@;
                    ps.insert(0, p);
                    proof {
                        assert(ps@ =~= seq![p] + prev);
                        assert forall|k: int| 0 <= k < ps@.len() implies params_view(ps@)[k]
                            == (seq![p@] + params_view(prev))[k] by {
                            assert(params_view(ps@)[k] == ps@[k]@);
                            if k > 0 {
                                assert(ps@[k] == prev[k - 1]);
                                assert(params_view(prev)[k - 1] == prev[k - 1]@);
                            }
                        }
                        assert(params_view(ps@) =~= seq![p@] + params_view(prev));
                    }
                    Option::Some((ps, j2))
                },
                Option::None => Option::None,
            }
        },
        Option::None => Option::None,
    }
}

/// Parse a parameter object's properties starting at `i`, as `dec_props`
/// states it.
fn parse_props(s: &str, i: usize) -> (r: Option<(Vec<ParamSpec>, usize)>)
    requires
        i <= s@.len(),
    ensures
        match r {
            Option::Some((ps, j)) => i <= j <= s@.len() && dec_props(s@.skip(i as int))
                == Option::Some((params_view(ps@), s@.skip(j as int))),
            Option::None => dec_props(s@.skip(i as int)) is None,
        },
{
    let slen = s.unicode_len();
    let ghost suf = s@.skip(i as int);
    if char_at_is(s, i, '}') {
        proof {
            assert(suf[0] == s@[i as int]);
            assert(suf.drop_first() =~= s@.skip(i + 1 as int));
            assert(params_view(Seq::<ParamSpec>::empty()) =~= Seq::<ParamSpecView>::empty());
        }
        return Option::Some((Vec::new(), i + 1));
    }
    proof {
        if suf.len() > 0 {
            assert(suf[0] == s@[i as int]);
        }
    }
    match parse_prop(s, i) {
        Option::Some((p, j1)) => match parse_props_rest(s, j1) {
            Option::Some((mut ps, j2)) => {
                let ghost prev = ps@;
                ps.insert(0, p);
                proof {
                    assert(ps@ =~= seq![p] + prev);
                    assert forall|k: int| 0 <= k < ps@.len() implies params_view(ps@)[k]
                        == (seq![p@] + params_view(prev))[k] by {
                        assert(params_view(ps@)[k] == ps@[k]@);
                        if k > 0 {
                            assert(ps@[k] == prev[k - 1]);
                            assert(params_view(prev)[k - 1] == prev[k - 1]@);
                        }
                    }
                    assert(params_view(ps@) =~= seq![p@] + params_view(prev));
                }
                Option::Some((ps, j2))
            },
            Option::None => Option::None,
        },
        Option::None => Option::None,
    }
}

/// Parse the remaining names of a string array starting at `i`, as
/// `dec_strings_rest` states it.
fn parse_strings_rest(s: &str, i: usize) -> (r: Option<(Vec<String>, usize)>)
    requires
        i <= s@.len(),
    ensures
        match r {
            Option::Some((ns, j)) => i <= j <= s@.len() && dec_strings_rest(s@.skip(i as int))
                == Option::Some((strs_view(ns@), s@.skip(j as int))),
            Option::None => dec_strings_rest(s@.skip(i as int)) is None,
        },
    decreases s@.len() - i,
{
    let slen = s.unicode_len();
    let ghost suf = s@.skip(i as int);
    if char_at_is(s, i, ']') {
        proof {
            assert(suf[0] == s@[i as int]);
            assert(suf.drop_first() =~= s@.skip(i + 1 as int));
            assert(strs_view(Seq::<String>::empty()) =~= Seq::<Seq<char>>::empty());
        }
        return Option::Some((Vec::new(), i + 1));
    }
    if !char_at_is(s, i, ',') {
        proof {
            if suf.len() > 0 {
                assert(suf[0] == s@[i as int]);
            }
        }
        return Option::None;
    }
    proof {
        assert(suf[0] == s@[i as int]);
        assert(suf.drop_first() =~= s@.skip(i + 1 as int));
    }
    match parse_string(s, i + 1) {
        Option::Some((n, j1)) => {
            proof {
                lemma_dec_string_len(s@.skip(i + 1 as int));
            }
            match parse_strings_rest(s, j1) {
                Option::Some((mut ns, j2)) => {
                    let ghost prev = ns@;
                    ns.insert(0, n);
                    proof {
                        assert(ns@ =~= seq![n] + prev);
                        assert forall|k: int| 0 <= k < ns@.len() implies strs_view(ns@)[k]
                            == (seq![n@] + strs_view(prev))[k] by {
                            assert(strs_view(ns@)[k] == ns@[k]@);
                            if k > 0 {
                                assert(ns@[k] == prev[k - 1]);
                                assert(strs_view(prev)[k - 1] == prev[k - 1]@);
                            }
                        }
                        assert(strs_view(ns@) =~= seq![n@] + strs_view(prev));
                    }
                    Option::Some((ns, j2))
                },
                Option::None => Option::None,
            }
        },
        Option::None => Option::None,
    }
}

/// Parse a string array's names starting at `i`, as `dec_strings` states
/// it.
fn parse_strings(s: &str, i: usize) -> (r: Option<(Vec<String>, usize)>)
    requires
        i <= s@.len(),
    ensures
        match r {
            Option::Some((ns, j)) => i <= j <= s@.len() && dec_strings(s@.skip(i as int))
                == Option::Some((strs_view(ns@), s@.skip(j as int))),
            Option::None => dec_strings(s@.skip(i as int)) is None,
        },
{
    let slen = s.unicode_len();
    let ghost suf = s@.skip(i as int);
    if char_at_is(s, i, ']') {
        proof {
            assert(suf[0] == s@[i as int]);
            assert(suf.drop_first() =~= s@.skip(i + 1 as int));
            assert(strs_view(Seq::<String>::empty()) =~= Seq::<Seq<char>>::empty());
        }
        return Option::Some((Vec::new(), i + 1));
    }
    proof {
        if suf.len() > 0 {
            assert(suf[0] == s@[i as int]);
        }
    }
    match parse_string(s, i) {
        Option::Some((n, j1)) => match parse_strings_rest(s, j1) {
            Option::Some((mut ns, j2)) => {
                let ghost prev = ns@;
                ns.insert(0, n);
                proof {
                    assert(ns@ =~= seq![n] + prev);
                    assert forall|k: int| 0 <= k < ns@.len() implies strs_view(ns@)[k]
                        == (seq![n@] + strs_view(prev))[k] by {
                        assert(strs_view(ns@)[k] == ns@[k]@);
                        if k > 0 {
                            assert(ns@[k] == prev[k - 1]);
                            assert(strs_view(prev)[k - 1] == prev[k - 1]@);
                        }
                    }
                    assert(strs_view(ns@) =~= seq![n@] + strs_view(prev));
                }
                Option::Some((ns, j2))
            },
            Option::None => Option::None,
        },
        Option::None => Option::None,
    }
}

/// Whether some name of the array equals this one, as `contains_name`
/// states it.
fn contains_str(names: &Vec<String>, n: &str) -> (r: bool)
    ensures
        r == contains_name(strs_view(names@), n@),
{
    let mut i: usize = 0;
    while i < names.len()
        invariant
            i <= names@.len(),
            forall|k: int| 0 <= k < i ==> names@[k]@ != n@,
        decreases names@.len() - i,
    {
        if crate::strutil::str_eq(names[i].as_str(), n) {
            proof {
                assert(strs_view(names@)[i as int] == names@[i as int]@);
            }
            return true;
        }
        i += 1;
    }
    proof {
        if contains_name(strs_view(names@), n@) {
            let k = choose|k: int| 0 <= k < strs_view(names@).len() && strs_view(names@)[k] == n@;
            assert(strs_view(names@)[k] == names@[k]@);
        }
    }
    false
}

/// Fill each parsed parameter's `required` flag from the required-names
/// array, as `apply_required` states it.
fn apply_required_exec(ps: Vec<ParamSpec>, names: &Vec<String>) -> (r: Vec<ParamSpec>)
    ensures
        params_view(r@) == apply_required(params_view(ps@), strs_view(names@)),
{
    let mut out: Vec<ParamSpec> = Vec::new();
    let mut i: usize = 0;
    while i < ps.len()
        invariant
            i <= ps@.len(),
            out@.len() == i,
            forall|k: int| 0 <= k < i ==> out@[k]@ == apply_required(
                params_view(ps@),
                strs_view(names@),
            )[k],
        decreases ps@.len() - i,
    {
        let p = &ps[i];
        let req = contains_str(names, p.name.as_str());
        out.push(
            ParamSpec {
                name: p.name.clone(),
                schema_type: p.schema_type.clone(),
                description: p.description.clone(),
                required: req,
            },
        );
        proof {
            assert(params_view(ps@)[i as int] == ps@[i as int]@);
        }
        i += 1;
    }
    proof {
        assert forall|k: int| 0 <= k < ps@.len() implies params_view(out@)[k] == apply_required(
            params_view(ps@),
            strs_view(names@),
        )[k] by {
            assert(params_view(out@)[k] == out@[k]@);
        }
        assert(params_view(out@) =~= apply_required(params_view(ps@), strs_view(names@)));
    }
    out
}

/// Parse one tool definition starting at `i`, as `dec_tool` states it.
fn parse_tool(s: &str, i: usize) -> (r: Option<(ToolDefinition, usize)>)
    requires
        i <= s@.len(),
    ensures
        match r {
            Option::Some((t, j)) => i <= j <= s@.len() && dec_tool(s@.skip(i as int))
                == Option::Some((t@, s@.skip(j as int))),
            Option::None => dec_tool(s@.skip(i as int)) is None,
        },
{
    match parse_lit(s, i, "{\"type\":\"function\",\"function\":{\"name\":") {
        Option::Some(j1) => match parse_string(s, j1) {
            Option::Some((name, j2)) => match parse_lit(s, j2, ",\"description\":") {
                Option::Some(j3) => match parse_string(s, j3) {
                    Option::Some((d, j4)) => match parse_lit(
                        s,
                        j4,
                        ",\"parameters\":{\"type\":\"object\",\"properties\":{",
                    ) {
                        Option::Some(j5) => match parse_props(s, j5) {
                            Option::Some((ps, j6)) => match parse_lit(s, j6, ",\"required\":[") {
                                Option::Some(j7) => match parse_strings(s, j7) {
                                    Option::Some((ns, j8)) => match parse_lit(s, j8, "}}}") {
                                        Option::Some(j9) => {
                                            let params = apply_required_exec(ps, &ns);
                                            Option::Some(
                                                (
                                                    ToolDefinition {
                                                        name,
                                                        description: d,
                                                        params,
                                                    },
                                                    j9,
                                                ),
                                            )
                                        },
                                        Option::None => Option::None,
                                    },
                                    Option::None => Option::None,
                                },
                                Option::None => Option::None,
                            },
                            Option::None => Option::None,
                        },
                        Option::None => Option::None,
                    },
                    Option::None => Option::None,
                },
                Option::None => Option::None,
            },
            Option::None => Option::None,
        },
        Option::None => Option::None,
    }
}

/// Parse the remaining tools starting at `i`, as `dec_tools_rest` states
/// it.
fn parse_tools_rest(s: &str, i: usize) -> (r: Option<(Vec<ToolDefinition>, usize)>)
    requires
        i <= s@.len(),
    ensures
        match r {
            Option::Some((ts, j)) => i <= j <= s@.len() && dec_tools_rest(s@.skip(i as int))
                == Option::Some((tools_view(ts@), s@.skip(j as int))),
            Option::None => dec_tools_rest(s@.skip(i as int)) is None,
        },
    decreases s@.len() - i,
{
    let slen = s.unicode_len();
    let ghost suf = s@.skip(i as int);
    if char_at_is(s, i, ']') {
        proof {
            assert(suf[0] == s@[i as int]);
            assert(suf.drop_first() =~= s@.skip(i + 1 as int));
            assert(tools_view(Seq::<ToolDefinition>::empty()) =~= Seq::<
                ToolDefinitionView,
            >::empty());
        }
        return Option::Some((Vec::new(), i + 1));
    }
    if !char_at_is(s, i, ',') {
        proof {
            if suf.len() > 0 {
                assert(suf[0] == s@[i as int]);
            }
        }
        return Option::None;
    }
    proof {
        assert(suf[0] == s@[i as int]);
        assert(suf.drop_first() =~= s@.skip(i + 1 as int));
    }
    match parse_tool(s, i + 1) {
        Option::Some((t, j1)) => {
            proof {
                lemma_dec_tool_len(s@.skip(i + 1 as int));
            }
            match parse_tools_rest(s, j1) {
                Option::Some((mut ts, j2)) => {
                    let ghost prev = ts@;
                    ts.insert(0, t);
                    proof {
                        assert(ts@ =~= seq![t] + prev);
                        assert forall|k: int| 0 <= k < ts@.len() implies tools_view(ts@)[k]
                            == (seq![t@] + tools_view(prev))[k] by {
                            assert(tools_view(ts@)[k] == ts@[k]@);
                            if k > 0 {
                                assert(ts@[k] == prev[k - 1]);
                                assert(tools_view(prev)[k - 1] == prev[k - 1]@);
                            }
                        }
                        assert(tools_view(ts@) =~= seq![t@] + tools_view(prev));
                    }
                    Option::Some((ts, j2))
                },
                Option::None => Option::None,
            }
        },
        Option::None => Option::None,
    }
}

/// Parse a tools array's elements starting at `i`, as `dec_tools` states
/// it.
fn parse_tools(s: &str, i: usize) -> (r: Option<(Vec<ToolDefinition>, usize)>)
    requires
        i <= s@.len(),
    ensures
        match r {
            Option::Some((ts, j)) => i <= j <= s@.len() && dec_tools(s@.skip(i as int))
                == Option::Some((tools_view(ts@), s@.skip(j as int))),
            Option::None => dec_tools(s@.skip(i as int)) is None,
        },
{
    let slen = s.unicode_len();
    let ghost suf = s@.skip(i as int);
    if char_at_is(s, i, ']') {
        proof {
            assert(suf[0] == s@[i as int]);
            assert(suf.drop_first() =~= s@.skip(i + 1 as int));
            assert(tools_view(Seq::<ToolDefinition>::empty()) =~= Seq::<
                ToolDefinitionView,
            >::empty());
        }
        return Option::Some((Vec::new(), i + 1));
    }
    proof {
        if suf.len() > 0 {
            assert(suf[0] == s@[i as int]);
        }
    }
    match parse_tool(s, i) {
        Option::Some((t, j1)) => match parse_tools_rest(s, j1) {
            Option::Some((mut ts, j2)) => {
                let ghost prev = ts@;
                ts.insert(0, t);
                proof {
                    assert(ts@ =~= seq![t] + prev);
                    assert forall|k: int| 0 <= k < ts@.len() implies tools_view(ts@)[k]
                        == (seq![t@] + tools_view(prev))[k] by {
                        assert(tools_view(ts@)[k] == ts@[k]@);
                        if k > 0 {
                            assert(ts@[k] == prev[k - 1]);
                            assert(tools_view(prev)[k - 1] == prev[k - 1]@);
                        }
                    }
                    assert(tools_view(ts@) =~= seq![t@] + tools_view(prev));
                }
                Option::Some((ts, j2))
            },
            Option::None => Option::None,
        },
        Option::None => Option::None,
    }
}

/// Parse a whole request body in its canonical form, as `dec_request`
/// states it.
#[verifier::rlimit(100)]
#[verifier::spinoff_prover]
pub fn parse_request(s: &str) -> (r: Option<RequestBody>)
    ensures
        match r {
            Option::Some(b) => dec_request(s@) == Option::Some(b@),
            Option::None => dec_request(s@) is None,
        },
{
    proof {
        assert(s@.skip(0) =~= s@);
    }
    let j1 = match parse_lit(s, 0, "{\"model\":") {
        Option::Some(j) => j,
        Option::None => {
            return Option::None;
        },
    };
    let (model, j2) = match parse_string(s, j1) {
        Option::Some(v) => v,
        Option::None => {
            return Option::None;
        },
    };
    let j3 = match parse_lit(s, j2, ",\"input\":") {
        Option::Some(j) => j,
        Option::None => {
            return Option::None;
        },
    };
    let (input, j4) = match parse_string(s, j3) {
        Option::Some(v) => v,
        Option::None => {
            return Option::None;
        },
    };
    // optional instructions
    let (instructions, j5): (Option<String>, usize) = match parse_lit(s, j4, ",\"instructions\":") {
        Option::Some(ja) => match parse_string(s, ja) {
            Option::Some((x, jb)) => (Option::Some(x), jb),
            Option::None => {
                return Option::None;
            },
        },
        Option::None => (Option::None, j4),
    };
    // optional tools section
    let (tools, j6): (Option<ToolsSection>, usize) = match parse_lit(s, j5, ",\"tools\":[") {
        Option::Some(ja) => match parse_tools(s, ja) {
            Option::Some((ts, jb)) => match parse_lit(s, jb, ",\"max_tool_calls\":") {
                Option::Some(jc) => match crate::codec::parse_num(s, jc) {
                    Option::Some((n, jd)) => match parse_lit(s, jd, ",\"tool_choice\":") {
                        Option::Some(je) => match parse_string(s, je) {
                            Option::Some((tc, jf)) => (
                                Option::Some(
                                    ToolsSection { tools: ts, max_tool_calls: n, tool_choice: tc },
                                ),
                                jf,
                            ),
                            Option::None => {
                                return Option::None;
                            },
                        },
                        Option::None => {
                            return Option::None;
                        },
                    },
                    Option::None => {
                        return Option::None;
                    },
                },
                Option::None => {
                    return Option::None;
                },
            },
            Option::None => {
                return Option::None;
            },
        },
        Option::None => (Option::None, j5),
    };
    // optional reasoning section
    let (effort, j7): (Option<String>, usize) = match parse_lit(s, j6, ",\"reasoning\":{\"effort\":") {
        Option::Some(ja) => match parse_string(s, ja) {
            Option::Some((e, jb)) => match parse_lit(s, jb, "}") {
                Option::Some(jc) => (Option::Some(e), jc),
                Option::None => {
                    return Option::None;
                },
            },
            Option::None => {
                return Option::None;
            },
        },
        Option::None => (Option::None, j6),
    };
    let j8 = match parse_lit(s, j7, "}") {
        Option::Some(j) => j,
        Option::None => {
            return Option::None;
        },
    };
    if j8 < s.unicode_len() {
        proof {
            assert(s@.skip(j8 as int).len() > 0);
        }
        return Option::None;
    }
    proof {
        assert(s@.skip(j8 as int).len() == 0);
    }
    Option::Some(RequestBody { model, input, instructions, tools, reasoning_effort: effort })
}

} // verus!
