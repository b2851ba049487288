//! The agent loop state machine: repeated endpoint calls interleaved with
//! local tool executions, under a call budget.  The decisions live here,
//! verified; the caller performs the network call each turn and hands the
//! response back.  Budget exhaustion is a controlled stop, not a failure.

use vstd::prelude::*;
use crate::codec::{args_of, parse_args_or_empty};
use crate::strutil::{chars_to_string, push_chars};
use crate::dispatcher::{ToolDefinitionView, ToolRegistry};
use crate::items::{
    parse_item_spec, parse_items, ItemView, OpenResponsesResponse, OutputItem, OutputItemView,
    Usage,
};

verus! {

/// Who drives the loop: the server resolves tool calls itself and one
/// call suffices, or this client drives the multi-turn exchange.  Chosen
/// explicitly by the caller, never inferred.
#[derive(Debug, Clone, Copy, PartialEq, Eq, Structural)]
pub enum LoopMode {
    ServerDriven,
    ClientDriven,
}

/// The phase of one loop invocation.  `Done`, `BudgetExceeded` and
/// `Failed` are terminal: no transition leaves them.
#[derive(Debug, Clone, Copy, PartialEq, Eq, Structural)]
pub enum LoopPhase {
    AwaitingModel,
    ExecutingTools,
    Done,
    BudgetExceeded,
    Failed,
}

/// The state of one loop invocation: created at loop start, mutated each
/// turn, discarded at termination.
#[derive(Debug)]
pub struct AgentLoopState {
    pub mode: LoopMode,
    pub phase: LoopPhase,
    pub turn_count: u32,
    pub max_tool_calls: u32,
    pub accumulated_usage: Usage,
    pub context: Vec<OutputItem>,
}

/// Mathematical view of an `AgentLoopState`.
pub struct LoopView {
    pub mode: LoopMode,
    pub phase: LoopPhase,
    pub turn_count: u32,
    pub max_tool_calls: u32,
    pub accumulated_usage: Usage,
    pub context: Seq<OutputItemView>,
}

/// The views of a sequence of output items.
pub open spec fn out_items_view(items: Seq<OutputItem>) -> Seq<OutputItemView> {
    items.map_values(|it: OutputItem| it@)
}

impl View for AgentLoopState {
    type V = LoopView;

    open spec fn view(&self) -> LoopView {
        LoopView {
            mode: self.mode,
            phase: self.phase,
            turn_count: self.turn_count,
            max_tool_calls: self.max_tool_calls,
            accumulated_usage: self.accumulated_usage,
            context: out_items_view(self.context@),
        }
    }
}

/// The budget is never overspent, and a phase that still works has budget
/// left.
pub open spec fn loop_wf(s: LoopView) -> bool {
    s.turn_count <= s.max_tool_calls && ((s.phase is AwaitingModel || s.phase is ExecutingTools)
        ==> s.turn_count < s.max_tool_calls)
}

/// Whether some later or earlier item answers this call identifier.
pub open spec fn call_resolved(items: Seq<OutputItemView>, cid: Seq<char>) -> bool {
    exists|j: int|
        0 <= j < items.len() && ((#[trigger] items[j]) matches OutputItemView::FunctionCallOutput {
            call_id,
            output,
        } && call_id == cid)
}

/// A function call of the sequence that no output of the sequence
/// answers.
pub open spec fn is_unresolved_call(items: Seq<OutputItemView>, it: OutputItemView) -> bool {
    it matches OutputItemView::FunctionCall { name, arguments, call_id } && !call_resolved(
        items,
        call_id,
    )
}

/// The items of `items` that are calls no output of `full` answers, in
/// order.
pub open spec fn unresolved_in(full: Seq<OutputItemView>, items: Seq<OutputItemView>) -> Seq<
    OutputItemView,
>
    decreases items.len(),
{
    if items.len() == 0 {
        Seq::empty()
    } else {
        let prev = unresolved_in(full, items.drop_last());
        if is_unresolved_call(full, items.last()) {
            prev.push(items.last())
        } else {
            prev
        }
    }
}

/// The unanswered function calls of the sequence, in order.
pub open spec fn unresolved_calls(items: Seq<OutputItemView>) -> Seq<OutputItemView> {
    unresolved_in(items, items)
}

/// Whether the sequence holds a terminal message item.
pub open spec fn has_message(items: Seq<OutputItemView>) -> bool {
    exists|j: int|
        0 <= j < items.len() && ((#[trigger] items[j]) matches OutputItemView::Message { content })
}

/// Saturating addition within `u32`.
pub open spec fn sat_add_u32(a: u32, b: u32) -> u32 {
    if a + b <= u32::MAX {
        (a + b) as u32
    } else {
        u32::MAX
    }
}

/// Usage summed across turns, saturating.
pub open spec fn add_usage(a: Usage, b: Usage) -> Usage {
    Usage {
        input_tokens: sat_add_u32(a.input_tokens, b.input_tokens),
        output_tokens: sat_add_u32(a.output_tokens, b.output_tokens),
    }
}

/// The parsed views of a response's wire items.
pub open spec fn parsed_items(items: Seq<ItemView>) -> Seq<OutputItemView> {
    items.map_values(|it: ItemView| parse_item_spec(it))
}

/// The state after one model response: its items join the context and its
/// usage is added.  A client-driven loop then executes the unanswered
/// calls; with none left it is done exactly when the response carries a
/// terminal message, and a response that neither completes the task nor
/// requests work aborts the loop as failed.  A server-driven loop, whose
/// server resolves calls itself, is done exactly when its single response
/// carries the final message.
pub open spec fn on_response_spec(s: LoopView, items: Seq<OutputItemView>, usage: Usage) -> LoopView {
    let ctx = s.context + items;
    LoopView {
        mode: s.mode,
        phase: if s.mode is ClientDriven && unresolved_calls(ctx).len() > 0 {
            LoopPhase::ExecutingTools
        } else if has_message(items) {
            LoopPhase::Done
        } else {
            LoopPhase::Failed
        },
        turn_count: s.turn_count,
        max_tool_calls: s.max_tool_calls,
        accumulated_usage: add_usage(s.accumulated_usage, usage),
        context: ctx,
    }
}

/// The state after the produced tool outputs join the context: the turn
/// is spent, and a spent budget ends the loop in `BudgetExceeded`.
pub open spec fn on_results_spec(s: LoopView, outputs: Seq<OutputItemView>) -> LoopView {
    LoopView {
        mode: s.mode,
        phase: if s.turn_count + 1 >= s.max_tool_calls {
            LoopPhase::BudgetExceeded
        } else {
            LoopPhase::AwaitingModel
        },
        turn_count: (s.turn_count + 1) as u32,
        max_tool_calls: s.max_tool_calls,
        accumulated_usage: s.accumulated_usage,
        context: s.context + outputs,
    }
}

impl AgentLoopState {
    /// A fresh loop: no turns spent, empty context; a zero budget is
    /// exceeded from the start.
    pub fn new(mode: LoopMode, max_tool_calls: u32) -> (r: AgentLoopState)
        ensures
            r@.mode == mode,
            r@.turn_count == 0,
            r@.max_tool_calls == max_tool_calls,
            r@.context =~= Seq::<OutputItemView>::empty(),
            r@.accumulated_usage == (Usage { input_tokens: 0u32, output_tokens: 0u32 }),
            r@.phase == if max_tool_calls == 0 {
                LoopPhase::BudgetExceeded
            } else {
                LoopPhase::AwaitingModel
            },
            loop_wf(r@),
    {
        let phase = if max_tool_calls == 0 {
            LoopPhase::BudgetExceeded
        } else {
            LoopPhase::AwaitingModel
        };
        let r = AgentLoopState {
            mode,
            phase,
            turn_count: 0,
            max_tool_calls,
            accumulated_usage: Usage { input_tokens: 0, output_tokens: 0 },
            context: Vec::new(),
        };
        proof {
            assert(r@.context =~= Seq::<OutputItemView>::empty());
        }
        r
    }

    /// Record an unrecovered transport or decode failure: the loop aborts
    /// with no further turns.
    pub fn fail(&mut self)
        ensures
            final(self)@ == (LoopView { phase: LoopPhase::Failed, ..old(self)@ }),
    {
        self.phase = LoopPhase::Failed;
    }

    /// Take one model response: parse and append its items, add its
    /// usage, and decide the next phase, as `on_response_spec` states it.
    /// Returns the unanswered calls, in order, for execution.
    pub fn on_response(&mut self, resp: &OpenResponsesResponse) -> (pending: Vec<OutputItem>)
        requires
            old(self)@.phase is AwaitingModel,
            loop_wf(old(self)@),
        ensures
            final(self)@ == on_response_spec(
                old(self)@,
                parsed_items(crate::classifier::items_view(resp.items@)),
                resp.usage,
            ),
            loop_wf(final(self)@),
            out_items_view(pending@) =~= unresolved_calls(final(self)@.context),
    {
        let ghost before = self@;
        let ghost new_items = parsed_items(crate::classifier::items_view(resp.items@));
        let mut parsed = parse_items(&resp.items);
        proof {
            assert(out_items_view(parsed@) =~= new_items);
        }
        let got_message = contains_message(&parsed);
        let ghost ctx0 = self@.context;
        while parsed.len() > 0
            invariant
                out_items_view(self.context@) =~= ctx0 + new_items.take(
                    new_items.len() - parsed@.len(),
                ),
                out_items_view(parsed@) =~= new_items.skip(new_items.len() - parsed@.len()),
                parsed@.len() <= new_items.len(),
                self.mode == before.mode,
                self.phase == before.phase,
                self.turn_count == before.turn_count,
                self.max_tool_calls == before.max_tool_calls,
                self.accumulated_usage == before.accumulated_usage,
            decreases parsed@.len(),
        {
            let ghost done = new_items.len() - parsed@.len();
            let ghost pp = parsed@;
            let it = parsed.remove(0);
            proof {
                assert(it == pp[0]);
                assert(out_items_view(pp)[0] == pp[0]@);
                assert(it@ == new_items[done as int]);
                assert(parsed@ =~= pp.drop_first());
                assert forall|k: int| 0 <= k < parsed@.len() implies out_items_view(parsed@)[k]
                    == out_items_view(pp)[k + 1] by {
                    assert(out_items_view(parsed@)[k] == parsed@[k]@);
                    assert(out_items_view(pp)[k + 1] == pp[k + 1]@);
                }
                assert(out_items_view(parsed@) =~= new_items.skip(done + 1));
            }
            let ghost cc = self.context@;
            self.context.push(it);
            proof {
                assert(out_items_view(cc) =~= ctx0 + new_items.take(done as int));
                assert(out_items_view(cc).len() == cc.len());
                assert(cc.len() == ctx0.len() + done);
                assert(done + 1 <= new_items.len());
                assert(self.context@ =~= cc.push(it));
                assert forall|k: int| 0 <= k < self.context@.len() implies out_items_view(
                    self.context@,
                )[k] == (ctx0 + new_items.take(done + 1))[k] by {
                    assert(out_items_view(self.context@)[k] == self.context@[k]@);
                    if k < cc.len() {
                        assert(self.context@[k] == cc[k]);
                        assert(out_items_view(cc)[k] == cc[k]@);
                    } else {
                        assert(self.context@[k] == it);
                    }
                }
                assert(out_items_view(self.context@) =~= ctx0 + new_items.take(done + 1));
            }
        }
        proof {
            assert(new_items.take(new_items.len() as int) =~= new_items);
            assert(out_items_view(self.context@) =~= ctx0 + new_items);
        }
        self.accumulated_usage = Usage {
            input_tokens: sat_add_exec(self.accumulated_usage.input_tokens, resp.usage.input_tokens),
            output_tokens: sat_add_exec(
                self.accumulated_usage.output_tokens,
                resp.usage.output_tokens,
            ),
        };
        let pending = collect_unresolved(&self.context);
        let any_pending = pending.len() > 0;
        let client_driven = matches!(self.mode, LoopMode::ClientDriven);
        if client_driven && any_pending {
            self.phase = LoopPhase::ExecutingTools;
        } else if got_message {
            self.phase = LoopPhase::Done;
        } else {
            self.phase = LoopPhase::Failed;
        }
        proof {
            let target = on_response_spec(before, new_items, resp.usage);
            assert(self@.context =~= target.context);
            assert(self@ == target);
        }
        pending
    }

    /// Take the produced tool outputs: append them, spend the turn, and
    /// stop in `BudgetExceeded` when the budget is spent, as
    /// `on_results_spec` states it.
    pub fn on_tool_results(&mut self, outputs: Vec<OutputItem>)
        requires
            old(self)@.phase is ExecutingTools,
            loop_wf(old(self)@),
        ensures
            final(self)@ == on_results_spec(old(self)@, out_items_view(outputs@)),
            loop_wf(final(self)@),
    {
        let ghost before = self@;
        let ghost outv = out_items_view(outputs@);
        let mut outputs = outputs;
        while outputs.len() > 0
            invariant
                out_items_view(self.context@) =~= before.context + outv.take(
                    outv.len() - outputs@.len(),
                ),
                out_items_view(outputs@) =~= outv.skip(outv.len() - outputs@.len()),
                outputs@.len() <= outv.len(),
                self.mode == before.mode,
                self.phase == before.phase,
                self.turn_count == before.turn_count,
                self.max_tool_calls == before.max_tool_calls,
                self.accumulated_usage == before.accumulated_usage,
            decreases outputs@.len(),
        {
            let ghost done = outv.len() - outputs@.len();
            let ghost pp = outputs@;
            let it = outputs.remove(0);
            proof {
                assert(it == pp[0]);
                assert(out_items_view(pp)[0] == pp[0]@);
                assert(it@ == outv[done as int]);
                assert(outputs@ =~= pp.drop_first());
                assert forall|k: int| 0 <= k < outputs@.len() implies out_items_view(outputs@)[k]
                    == out_items_view(pp)[k + 1] by {
                    assert(out_items_view(outputs@)[k] == outputs@[k]@);
                    assert(out_items_view(pp)[k + 1] == pp[k + 1]@);
                }
                assert(out_items_view(outputs@) =~= outv.skip(done + 1));
            }
            let ghost cc = self.context@;
            self.context.push(it);
            proof {
                assert(out_items_view(cc) =~= before.context + outv.take(done as int));
                assert(out_items_view(cc).len() == cc.len());
                assert(cc.len() == before.context.len() + done);
                assert(done + 1 <= outv.len());
                assert(self.context@ =~= cc.push(it));
                assert forall|k: int| 0 <= k < self.context@.len() implies out_items_view(
                    self.context@,
                )[k] == (before.context + outv.take(done + 1))[k] by {
                    assert(out_items_view(self.context@)[k] == self.context@[k]@);
                    if k < cc.len() {
                        assert(self.context@[k] == cc[k]);
                        assert(out_items_view(cc)[k] == cc[k]@);
                    } else {
                        assert(self.context@[k] == it);
                    }
                }
                assert(out_items_view(self.context@) =~= before.context + outv.take(done + 1));
            }
        }
        proof {
            assert(outv.take(outv.len() as int) =~= outv);
            assert(out_items_view(self.context@) =~= before.context + outv);
        }
        self.turn_count = self.turn_count + 1;
        if self.turn_count >= self.max_tool_calls {
            self.phase = LoopPhase::BudgetExceeded;
        } else {
            self.phase = LoopPhase::AwaitingModel;
        }
        proof {
            let target = on_results_spec(before, outv);
            assert(self@.context =~= target.context);
            assert(self@ == target);
        }
    }
}

/// Saturating addition within `u32`, as `sat_add_u32` states it.
fn sat_add_exec(a: u32, b: u32) -> (r: u32)
    ensures
        r == sat_add_u32(a, b),
{
    if a > u32::MAX - b {
        u32::MAX
    } else {
        a + b
    }
}

/// Whether some item of the context answers this call identifier.
fn resolved_exec(ctx: &Vec<OutputItem>, cid: &str) -> (r: bool)
    ensures
        r == call_resolved(out_items_view(ctx@), cid@),
{
    let ghost cv = out_items_view(ctx@);
    let mut j: usize = 0;
    while j < ctx.len()
        invariant
            j <= ctx@.len(),
            cv == out_items_view(ctx@),
            cv.len() == ctx@.len(),
            forall|k: int|
                0 <= k < j ==> !((#[trigger] cv[k]) matches OutputItemView::FunctionCallOutput {
                    call_id,
                    output,
                } && call_id == cid@),
        decreases ctx@.len() - j,
    {
        proof {
            assert(cv[j as int] == ctx@[j as int]@);
        }
        match &ctx[j] {
            OutputItem::FunctionCallOutput { call_id, output } => {
                if crate::strutil::str_eq(call_id.as_str(), cid) {
                    return true;
                }
            },
            _ => {},
        }
        j += 1;
    }
    false
}

/// Whether some item of the list is a terminal message.
fn contains_message(items: &Vec<OutputItem>) -> (r: bool)
    ensures
        r == has_message(out_items_view(items@)),
{
    let ghost iv = out_items_view(items@);
    let mut j: usize = 0;
    while j < items.len()
        invariant
            j <= items@.len(),
            iv == out_items_view(items@),
            iv.len() == items@.len(),
            forall|k: int|
                0 <= k < j ==> !((#[trigger] iv[k]) matches OutputItemView::Message { content }),
        decreases items@.len() - j,
    {
        proof {
            assert(iv[j as int] == items@[j as int]@);
        }
        if matches!(&items[j], OutputItem::Message { .. }) {
            return true;
        }
        j += 1;
    }
    false
}

/// The unanswered function calls of the context, in order, each copied
/// out.
fn collect_unresolved(ctx: &Vec<OutputItem>) -> (r: Vec<OutputItem>)
    ensures
        out_items_view(r@) =~= unresolved_calls(out_items_view(ctx@)),
{
    let ghost cv = out_items_view(ctx@);
    let mut out: Vec<OutputItem> = Vec::new();
    let mut i: usize = 0;
    while i < ctx.len()
        invariant
            i <= ctx@.len(),
            cv == out_items_view(ctx@),
            cv.len() == ctx@.len(),
            out_items_view(out@) =~= unresolved_in(cv, cv.take(i as int)),
        decreases ctx@.len() - i,
    {
        proof {
            assert(cv[i as int] == ctx@[i as int]@);
            assert(cv.take(i + 1 as int).drop_last() =~= cv.take(i as int));
            assert(cv.take(i + 1 as int).last() == cv[i as int]);
        }
        let ghost prev = out@;
        match &ctx[i] {
            OutputItem::FunctionCall { name, arguments, call_id } => {
                if !resolved_exec(ctx, call_id.as_str()) {
                    out.push(
                        OutputItem::FunctionCall {
                            name: name.clone(),
                            arguments: arguments.clone(),
                            call_id: call_id.clone(),
                        },
                    );
                    proof {
                        assert(is_unresolved_call(cv, cv[i as int]));
                        assert(out@[out@.len() - 1]@ == cv[i as int]);
                        assert forall|k: int| 0 <= k < out@.len() implies out_items_view(out@)[k]
                            == unresolved_in(cv, cv.take(i + 1 as int))[k] by {
                            assert(out_items_view(out@)[k] == out@[k]@);
                            if k < out@.len() - 1 {
                                assert(out@[k] == prev[k]);
                                assert(out_items_view(prev)[k] == prev[k]@);
                            }
                        }
                        assert(out_items_view(out@) =~= unresolved_in(cv, cv.take(i + 1 as int)));
                    }
                } else {
                    proof {
                        assert(!is_unresolved_call(cv, cv[i as int]));
                        assert(out_items_view(out@) =~= unresolved_in(cv, cv.take(i + 1 as int)));
                    }
                }
            },
            _ => {
                proof {
                    assert(!(cv[i as int] matches OutputItemView::FunctionCall {
                        name,
                        arguments,
                        call_id,
                    }));
                    assert(!is_unresolved_call(cv, cv[i as int]));
                    assert(out_items_view(out@) =~= unresolved_in(cv, cv.take(i + 1 as int)));
                }
            },
        }
        i += 1;
    }
    proof {
        assert(cv.take(ctx@.len() as int) =~= cv);
    }
    out
}

/// Execute every pending call through the dispatcher, in order: exactly
/// one `FunctionCallOutput` per call, carrying the same call identifier,
/// with the text the dispatcher's contract states — an unknown tool
/// becomes a textual result, and the loop continues.
pub fn execute_calls(registry: &ToolRegistry, calls: &Vec<OutputItem>) -> (r: Vec<OutputItem>)
    requires
        forall|i: int|
            0 <= i < calls@.len() ==> (#[trigger] calls@[i]@) matches
                OutputItemView::FunctionCall { name, arguments, call_id },
    ensures
        r@.len() == calls@.len(),
        forall|i: int|
            0 <= i < calls@.len() ==> {
                let call = #[trigger] calls@[i]@;
                r@[i]@ == (OutputItemView::FunctionCallOutput {
                    call_id: call->FunctionCall_call_id,
                    output: ToolRegistry::report_spec(
                        registry@,
                        call->FunctionCall_name,
                        args_of(call->FunctionCall_arguments),
                    ),
                })
            },
{
    let mut out: Vec<OutputItem> = Vec::new();
    let mut i: usize = 0;
    while i < calls.len()
        invariant
            i <= calls@.len(),
            out@.len() == i,
            forall|k: int|
                0 <= k < calls@.len() ==> (#[trigger] calls@[k]@) matches
                    OutputItemView::FunctionCall { name, arguments, call_id },
            forall|k: int|
                0 <= k < i ==> {
                    let call = #[trigger] calls@[k]@;
                    out@[k]@ == (OutputItemView::FunctionCallOutput {
                        call_id: call->FunctionCall_call_id,
                        output: ToolRegistry::report_spec(
                            registry@,
                            call->FunctionCall_name,
                            args_of(call->FunctionCall_arguments),
                        ),
                    })
                },
        decreases calls@.len() - i,
    {
        match &calls[i] {
            OutputItem::FunctionCall { name, arguments, call_id } => {
                let args = parse_args_or_empty(arguments.as_str());
                let text = registry.execute_or_report(name.as_str(), &args);
                out.push(OutputItem::FunctionCallOutput { call_id: call_id.clone(), output: text });
            },
            _ => {
                proof {
                    assert(calls@[i as int]@ matches OutputItemView::FunctionCall {
                        name,
                        arguments,
                        call_id,
                    });
                    assert(false);
                }
            },
        }
        i += 1;
    }
    out
}

/// The text of one item when handed back as the next turn's input: a
/// tool result renders as one line naming its call; other items
/// contribute nothing.
pub open spec fn rendered_item(it: OutputItemView) -> Seq<char> {
    match it {
        OutputItemView::FunctionCallOutput { call_id, output } => "[tool result "@ + call_id
            + "] "@ + output + "\n"@,
        _ => Seq::empty(),
    }
}

/// The produced tool outputs rendered as input text, in order.
pub open spec fn rendered_outputs(items: Seq<OutputItemView>) -> Seq<char>
    decreases items.len(),
{
    if items.len() == 0 {
        Seq::empty()
    } else {
        rendered_outputs(items.drop_last()) + rendered_item(items.last())
    }
}

/// Render the produced tool outputs as the next turn's input, as
/// `rendered_outputs` states it.
pub fn render_outputs(outputs: &Vec<OutputItem>) -> (r: String)
    ensures
        r@ == rendered_outputs(out_items_view(outputs@)),
{
    let ghost ov = out_items_view(outputs@);
    let mut out: Vec<char> = Vec::new();
    let mut i: usize = 0;
    while i < outputs.len()
        invariant
            i <= outputs@.len(),
            ov == out_items_view(outputs@),
            ov.len() == outputs@.len(),
            out@ == rendered_outputs(ov.take(i as int)),
        decreases outputs@.len() - i,
    {
        proof {
            assert(ov[i as int] == outputs@[i as int]@);
            assert(ov.take(i + 1 as int).drop_last() =~= ov.take(i as int));
            assert(ov.take(i + 1 as int).last() == ov[i as int]);
        }
        match &outputs[i] {
            OutputItem::FunctionCallOutput { call_id, output } => {
                push_chars(&mut out, "[tool result ");
                push_chars(&mut out, call_id.as_str());
                push_chars(&mut out, "] ");
                push_chars(&mut out, output.as_str());
                push_chars(&mut out, "\n");
                proof {
                    assert(out@ =~= rendered_outputs(ov.take(i + 1 as int)));
                }
            },
            _ => {
                proof {
                    assert(rendered_item(ov[i as int]) =~= Seq::<char>::empty());
                    assert(out@ =~= rendered_outputs(ov.take(i + 1 as int)));
                }
            },
        }
        i += 1;
    }
    proof {
        assert(ov.take(outputs@.len() as int) =~= ov);
    }
    chars_to_string(&out)
}

/// Law: a response whose items are two unanswered function calls and no
/// message moves a fresh client-driven loop to `ExecutingTools`, with
/// exactly those two calls pending, in order.
pub proof fn lemma_two_calls_pending(s: LoopView, items: Seq<OutputItemView>, usage: Usage)
    requires
        loop_wf(s),
        s.phase is AwaitingModel,
        s.mode is ClientDriven,
        s.context.len() == 0,
        items.len() == 2,
        is_unresolved_call(s.context + items, items[0]),
        is_unresolved_call(s.context + items, items[1]),
    ensures
        on_response_spec(s, items, usage).phase is ExecutingTools,
        unresolved_calls(on_response_spec(s, items, usage).context) =~= items,
{
    let ctx = s.context + items;
    assert(ctx =~= items);
    assert(unresolved_in(ctx, ctx) =~= items) by {
        assert(ctx.drop_last() =~= seq![items[0]]);
        assert(ctx.drop_last().drop_last() =~= Seq::<OutputItemView>::empty());
        assert(ctx.last() == items[1]);
        assert(ctx.drop_last().last() == items[0]);
        assert(is_unresolved_call(ctx, items[0]));
        assert(is_unresolved_call(ctx, items[1]));
        let e = Seq::<OutputItemView>::empty();
        assert(unresolved_in(ctx, e) == e);
        assert(ctx.drop_last().drop_last() == e);
        assert(unresolved_in(ctx, ctx.drop_last().drop_last()) == e);
        assert(ctx.drop_last().len() == 1);
        assert(unresolved_in(ctx, ctx.drop_last()) == e.push(items[0]));
        assert(unresolved_in(ctx, ctx.drop_last()) =~= seq![items[0]]);
    }
    assert(unresolved_calls(ctx).len() == 2);
    assert(on_response_spec(s, items, usage).context == ctx);
}

/// Law: a client-driven response completes the loop exactly when it
/// carries a terminal message and leaves no call unanswered; a response
/// with neither never terminates the loop as done.
pub proof fn lemma_done_iff_message_and_no_calls(
    s: LoopView,
    items: Seq<OutputItemView>,
    usage: Usage,
)
    requires
        s.mode is ClientDriven,
    ensures
        on_response_spec(s, items, usage).phase is Done <==> (has_message(items)
            && unresolved_calls(s.context + items).len() == 0),
{
}

/// Law: with a budget of two calls and a model that always requests an
/// unanswered tool call, the loop ends in `BudgetExceeded` after exactly
/// two turns.  The terminal phases admit no further transition, so a
/// third turn cannot follow.
pub proof fn lemma_budget_exceeded_after_two(
    s0: LoopView,
    items1: Seq<OutputItemView>,
    u1: Usage,
    outs1: Seq<OutputItemView>,
    items2: Seq<OutputItemView>,
    u2: Usage,
    outs2: Seq<OutputItemView>,
)
    requires
        loop_wf(s0),
        s0.phase is AwaitingModel,
        s0.mode is ClientDriven,
        s0.turn_count == 0,
        s0.max_tool_calls == 2,
        unresolved_calls(s0.context + items1).len() > 0,
        unresolved_calls(
            on_results_spec(on_response_spec(s0, items1, u1), outs1).context + items2,
        ).len() > 0,
    ensures
        on_response_spec(s0, items1, u1).phase is ExecutingTools,
        on_results_spec(on_response_spec(s0, items1, u1), outs1).phase is AwaitingModel,
        on_results_spec(on_response_spec(s0, items1, u1), outs1).turn_count == 1,
        on_response_spec(
            on_results_spec(on_response_spec(s0, items1, u1), outs1),
            items2,
            u2,
        ).phase is ExecutingTools,
        on_results_spec(
            on_response_spec(on_results_spec(on_response_spec(s0, items1, u1), outs1), items2, u2),
            outs2,
        ).phase is BudgetExceeded,
        on_results_spec(
            on_response_spec(on_results_spec(on_response_spec(s0, items1, u1), outs1), items2, u2),
            outs2,
        ).turn_count == 2,
{
}

} // verus!
