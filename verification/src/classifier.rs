//! The reasoning classifier: assigns a visibility level and the extracted
//! text to one item, estimates token counts, and aggregates over a whole
//! response.

use vstd::prelude::*;
use crate::items::{ItemView, ResponseItem};
use crate::reasoning::{level_rank, ReasoningLevel};

verus! {

/// The visibility level and extracted text of one item, in priority order:
/// a non-reasoning item yields nothing; plain `content` with no
/// `encrypted_content` beside it is the raw trace; otherwise a `summary`
/// wins; otherwise `encrypted_content` alone yields an opaque marker;
/// otherwise the item exposes nothing.
pub open spec fn classify_spec(item: ItemView) -> (ReasoningLevel, Seq<char>) {
    if item.item_type != "reasoning"@ {
        (ReasoningLevel::Absent, ""@)
    } else if item.content is Some && item.encrypted_content is None {
        (ReasoningLevel::Raw, item.content->0)
    } else if item.summary is Some {
        (ReasoningLevel::Summary, item.summary->0)
    } else if item.encrypted_content is Some {
        (ReasoningLevel::Encrypted, "[encrypted]"@)
    } else {
        (ReasoningLevel::Absent, ""@)
    }
}

/// Approximate token count of a text: one token per four characters,
/// rounded down.  A display heuristic, not a real tokenizer.
pub open spec fn token_estimate(text: Seq<char>) -> nat {
    text.len() / 4
}

/// What one item contributes to a response's token estimate: `Raw` and
/// `Summary` text counts; an encrypted or absent trace contributes zero,
/// since its length is not representative of the reasoning's length.
pub open spec fn item_token_contribution(item: ItemView) -> nat {
    let level = classify_spec(item).0;
    if level is Raw || level is Summary {
        token_estimate(classify_spec(item).1)
    } else {
        0
    }
}

/// Law: a reasoning item with `content` present and `encrypted_content`
/// absent always classifies as `Raw`, with the text equal to `content`.
pub proof fn lemma_raw_precedence(item: ItemView)
    requires
        item.item_type == "reasoning"@,
        item.content is Some,
        item.encrypted_content is None,
    ensures
        classify_spec(item) == (ReasoningLevel::Raw, item.content->0),
{
}

/// Law: a reasoning item with only `encrypted_content` present classifies
/// as `Encrypted` and contributes zero estimated tokens, whatever the
/// length of the encrypted payload.
pub proof fn lemma_encrypted_zero_tokens(item: ItemView)
    requires
        item.item_type == "reasoning"@,
        item.content is None,
        item.summary is None,
        item.encrypted_content is Some,
    ensures
        classify_spec(item).0 == ReasoningLevel::Encrypted,
        item_token_contribution(item) == 0,
{
}

/// Classify one wire item.
pub fn classify(item: &ResponseItem) -> (r: (ReasoningLevel, String))
    ensures
        r.0 == classify_spec(item@).0,
        r.1@ == classify_spec(item@).1,
{
    if !crate::strutil::str_eq(item.item_type.as_str(), "reasoning") {
        return (ReasoningLevel::Absent, "".to_owned());
    }
    if item.content.is_some() && item.encrypted_content.is_none() {
        let text = match &item.content {
            Option::Some(s) => s.clone(),
            Option::None => "".to_owned(),
        };
        return (ReasoningLevel::Raw, text);
    }
    if let Option::Some(summary) = &item.summary {
        return (ReasoningLevel::Summary, summary.clone());
    }
    if item.encrypted_content.is_some() {
        return (ReasoningLevel::Encrypted, "[encrypted]".to_owned());
    }
    (ReasoningLevel::Absent, "".to_owned())
}

/// Executable token estimate of a text, as `token_estimate` states it.
pub fn estimate_tokens(text: &str) -> (r: usize)
    ensures
        r == token_estimate(text@),
{
    text.unicode_len() / 4
}

/// The views of a sequence of wire items.
pub open spec fn items_view(items: Seq<ResponseItem>) -> Seq<ItemView> {
    items.map_values(|it: ResponseItem| it@)
}

/// The highest-fidelity level observed among the items, `Raw` > `Summary`
/// > `Encrypted` > `Absent`; `Absent` for an empty sequence.
pub open spec fn response_level(items: Seq<ItemView>) -> ReasoningLevel
    decreases items.len(),
{
    if items.len() == 0 {
        ReasoningLevel::Absent
    } else {
        let prev = response_level(items.drop_last());
        let cur = classify_spec(items.last()).0;
        if level_rank(cur) > level_rank(prev) {
            cur
        } else {
            prev
        }
    }
}

/// The summed token estimate of the items' `Raw` and `Summary` texts.
pub open spec fn response_tokens(items: Seq<ItemView>) -> nat
    decreases items.len(),
{
    if items.len() == 0 {
        0
    } else {
        response_tokens(items.drop_last()) + item_token_contribution(items.last())
    }
}

/// Aggregate analysis of a response's reasoning: the highest-fidelity
/// level observed, and the summed token estimate of the `Raw` and
/// `Summary` texts, saturating at `u64::MAX`.
pub fn analyze_reasoning(items: &Vec<ResponseItem>) -> (r: (ReasoningLevel, u64))
    ensures
        r.0 == response_level(items_view(items@)),
        r.1 == if response_tokens(items_view(items@)) <= u64::MAX {
            response_tokens(items_view(items@)) as int
        } else {
            u64::MAX as int
        },
{
    let ghost all = items_view(items@);
    let mut level = ReasoningLevel::Absent;
    let mut tokens: u64 = 0;
    let mut i: usize = 0;
    while i < items.len()
        invariant
            i <= items@.len(),
            all == items_view(items@),
            all.len() == items@.len(),
            level == response_level(all.take(i as int)),
            tokens == if response_tokens(all.take(i as int)) <= u64::MAX {
                response_tokens(all.take(i as int)) as int
            } else {
                u64::MAX as int
            },
        decreases items@.len() - i,
    {
        proof {
            assert(all.take(i + 1 as int).drop_last() =~= all.take(i as int));
            assert(all.take(i + 1 as int).last() == items@[i as int]@);
        }
        let (cur, text) = classify(&items[i]);
        if cur.rank() > level.rank() {
            level = cur;
        }
        proof {
            assert(level == response_level(all.take(i + 1 as int)));
        }
        let contribution: u64 = match cur {
            ReasoningLevel::Raw | ReasoningLevel::Summary => estimate_tokens(text.as_str()) as u64,
            _ => 0u64,
        };
        proof {
            assert(contribution as nat == item_token_contribution(all.take(i + 1 as int).last()));
        }
        if tokens > u64::MAX - contribution {
            tokens = u64::MAX;
        } else {
            tokens = tokens + contribution;
        }
        i += 1;
    }
    proof {
        assert(all.take(items@.len() as int) =~= all);
    }
    (level, tokens)
}

} // verus!
