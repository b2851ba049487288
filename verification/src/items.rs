//! The item model: the wire-level shape of one response item, the typed
//! variant it maps to, and the response envelope.

use vstd::prelude::*;
use crate::strutil::str_eq;

verus! {

/// One item of a response as it arrives on the wire: a `type` discriminant
/// string plus every field any variant may carry.
#[derive(Debug, Clone)]
pub struct ResponseItem {
    pub item_type: String,
    pub content: Option<String>,
    pub summary: Option<String>,
    pub encrypted_content: Option<String>,
    pub name: Option<String>,
    pub arguments: Option<String>,
    pub id: Option<String>,
    pub tool_call_id: Option<String>,
}

/// Mathematical view of a `ResponseItem`: each text field as a character
/// sequence.
pub struct ItemView {
    pub item_type: Seq<char>,
    pub content: Option<Seq<char>>,
    pub summary: Option<Seq<char>>,
    pub encrypted_content: Option<Seq<char>>,
    pub name: Option<Seq<char>>,
    pub arguments: Option<Seq<char>>,
    pub id: Option<Seq<char>>,
    pub tool_call_id: Option<Seq<char>>,
}

/// View of an optional string as an optional character sequence.
pub open spec fn opt_view(o: Option<String>) -> Option<Seq<char>> {
    match o {
        Option::Some(s) => Option::Some(s@),
        Option::None => Option::None,
    }
}

impl View for ResponseItem {
    type V = ItemView;

    open spec fn view(&self) -> ItemView {
        ItemView {
            item_type: self.item_type@,
            content: opt_view(self.content),
            summary: opt_view(self.summary),
            encrypted_content: opt_view(self.encrypted_content),
            name: opt_view(self.name),
            arguments: opt_view(self.arguments),
            id: opt_view(self.id),
            tool_call_id: opt_view(self.tool_call_id),
        }
    }
}

/// Token usage reported with one response.
#[derive(Debug, Clone, Copy, PartialEq, Eq, Structural)]
pub struct Usage {
    pub input_tokens: u32,
    pub output_tokens: u32,
}

/// One complete response from the endpoint: an identifier, the model that
/// produced it, the ordered item sequence, and usage accounting.
#[derive(Debug, Clone)]
pub struct OpenResponsesResponse {
    pub id: String,
    pub model: String,
    pub items: Vec<ResponseItem>,
    pub usage: Usage,
}

/// The closed set of typed output items.  Unrecognized discriminants map to
/// `Unknown`, which keeps the raw item for forward compatibility.
#[derive(Debug, Clone)]
pub enum OutputItem {
    Reasoning { content: Option<String>, summary: Option<String>, encrypted_content: Option<String> },
    Message { content: Option<String> },
    FunctionCall { name: String, arguments: String, call_id: String },
    FunctionCallOutput { call_id: String, output: String },
    Unknown { raw: ResponseItem },
}

/// Mathematical view of an `OutputItem`.
pub enum OutputItemView {
    Reasoning { content: Option<Seq<char>>, summary: Option<Seq<char>>, encrypted_content: Option<Seq<char>> },
    Message { content: Option<Seq<char>> },
    FunctionCall { name: Seq<char>, arguments: Seq<char>, call_id: Seq<char> },
    FunctionCallOutput { call_id: Seq<char>, output: Seq<char> },
    Unknown { raw: ItemView },
}

impl View for OutputItem {
    type V = OutputItemView;

    open spec fn view(&self) -> OutputItemView {
        match self {
            OutputItem::Reasoning { content, summary, encrypted_content } => OutputItemView::Reasoning {
                content: opt_view(*content),
                summary: opt_view(*summary),
                encrypted_content: opt_view(*encrypted_content),
            },
            OutputItem::Message { content } => OutputItemView::Message { content: opt_view(*content) },
            OutputItem::FunctionCall { name, arguments, call_id } => OutputItemView::FunctionCall {
                name: name@,
                arguments: arguments@,
                call_id: call_id@,
            },
            OutputItem::FunctionCallOutput { call_id, output } => OutputItemView::FunctionCallOutput {
                call_id: call_id@,
                output: output@,
            },
            OutputItem::Unknown { raw } => OutputItemView::Unknown { raw: raw@ },
        }
    }
}

/// An optional sequence, or a default when absent.
pub open spec fn opt_or(o: Option<Seq<char>>, d: Seq<char>) -> Seq<char> {
    match o {
        Option::Some(s) => s,
        Option::None => d,
    }
}

/// The call identifier of a wire item: `tool_call_id` when present, else
/// `id`, else empty.
pub open spec fn call_id_of(item: ItemView) -> Seq<char> {
    match item.tool_call_id {
        Option::Some(s) => s,
        Option::None => opt_or(item.id, ""@),
    }
}

/// Which typed variant a wire item maps to, selected by its `type`
/// discriminant; unrecognized discriminants map to `Unknown`.
pub open spec fn parse_item_spec(item: ItemView) -> OutputItemView {
    if item.item_type == "reasoning"@ {
        OutputItemView::Reasoning {
            content: item.content,
            summary: item.summary,
            encrypted_content: item.encrypted_content,
        }
    } else if item.item_type == "message"@ {
        OutputItemView::Message { content: item.content }
    } else if item.item_type == "tool_call"@ {
        OutputItemView::FunctionCall {
            name: opt_or(item.name, ""@),
            arguments: opt_or(item.arguments, "{}"@),
            call_id: call_id_of(item),
        }
    } else if item.item_type == "tool_result"@ {
        OutputItemView::FunctionCallOutput {
            call_id: call_id_of(item),
            output: opt_or(item.content, ""@),
        }
    } else {
        OutputItemView::Unknown { raw: item }
    }
}

impl ResponseItem {
    /// A field-by-field copy with the same view.
    pub fn duplicate(&self) -> (r: ResponseItem)
        ensures
            r@ == self@,
    {
        ResponseItem {
            item_type: self.item_type.clone(),
            content: clone_opt(&self.content),
            summary: clone_opt(&self.summary),
            encrypted_content: clone_opt(&self.encrypted_content),
            name: clone_opt(&self.name),
            arguments: clone_opt(&self.arguments),
            id: clone_opt(&self.id),
            tool_call_id: clone_opt(&self.tool_call_id),
        }
    }
}

/// Clone an optional string.
fn clone_opt(o: &Option<String>) -> (r: Option<String>)
    ensures
        opt_view(r) == opt_view(*o),
{
    match o {
        Option::Some(s) => Option::Some(s.clone()),
        Option::None => Option::None,
    }
}

/// An optional string, or a copy of a default when absent.
fn opt_or_str(o: &Option<String>, d: &str) -> (r: String)
    ensures
        r@ == opt_or(opt_view(*o), d@),
{
    match o {
        Option::Some(s) => s.clone(),
        Option::None => d.to_owned(),
    }
}

/// Map a wire item to its typed variant by the `type` discriminant.
/// Unrecognized discriminants produce `Unknown` rather than failing.
pub fn parse_item(item: &ResponseItem) -> (r: OutputItem)
    ensures
        r@ == parse_item_spec(item@),
{
    if str_eq(item.item_type.as_str(), "reasoning") {
        OutputItem::Reasoning {
            content: clone_opt(&item.content),
            summary: clone_opt(&item.summary),
            encrypted_content: clone_opt(&item.encrypted_content),
        }
    } else if str_eq(item.item_type.as_str(), "message") {
        OutputItem::Message { content: clone_opt(&item.content) }
    } else if str_eq(item.item_type.as_str(), "tool_call") {
        OutputItem::FunctionCall {
            name: opt_or_str(&item.name, ""),
            arguments: opt_or_str(&item.arguments, "{}"),
            call_id: call_id_str(item),
        }
    } else if str_eq(item.item_type.as_str(), "tool_result") {
        OutputItem::FunctionCallOutput {
            call_id: call_id_str(item),
            output: opt_or_str(&item.content, ""),
        }
    } else {
        OutputItem::Unknown { raw: item.duplicate() }
    }
}

/// The call identifier of a wire item, as `call_id_of` states it.
fn call_id_str(item: &ResponseItem) -> (r: String)
    ensures
        r@ == call_id_of(item@),
{
    match &item.tool_call_id {
        Option::Some(s) => s.clone(),
        Option::None => opt_or_str(&item.id, ""),
    }
}

/// Map every item of a response, preserving order.
pub fn parse_items(items: &Vec<ResponseItem>) -> (r: Vec<OutputItem>)
    ensures
        r@.len() == items@.len(),
        forall|i: int| 0 <= i < items@.len() ==> r@[i]@ == parse_item_spec(items@[i]@),
{
    let mut out: Vec<OutputItem> = Vec::new();
    let mut i: usize = 0;
    while i < items.len()
        invariant
            i <= items@.len(),
            out@.len() == i,
            forall|j: int| 0 <= j < i ==> out@[j]@ == parse_item_spec(items@[j]@),
        decreases items@.len() - i,
    {
        let item = parse_item(&items[i]);
        out.push(item);
        i += 1;
    }
    out
}

} // verus!
