//! Decides, from message and context signals, whether a reply should be
//! attempted.
//!
//! The decision is an ordered list of named signals: a private conversation,
//! a reply to this account, a direct mention, a keyword trigger, and last a
//! probabilistic draw in "all messages" mode.  Identity and direct-address
//! signals always override the probabilistic policy.

use vstd::prelude::*;
use crate::text::{contains_seq, contains_vec, lowercase, chars_of, string_of, split_all, trim,
    trim_spec, split_spec, lower_of};
use crate::SCALE;

verus! {

/// The signal that decided a reply attempt, in precedence order.
#[derive(Clone, Copy, Debug, PartialEq, Eq, Structural)]
pub enum ReplySignal {
    /// The conversation is one-to-one.
    Private,
    /// The inbound message replies to a message this account sent.
    ReplyToBot,
    /// The message names the persona, the account, or its handle.
    Mention,
    /// The message contains a configured keyword.
    KeywordTrigger,
    /// "All messages" mode drew below the configured probability.
    RandomDraw,
}

/// Everything `reply_signal` reads about one inbound message.
pub struct TriggerContext {
    /// Whether the conversation is one-to-one.
    pub is_private: bool,
    /// Whether the message replies to a message this account sent.
    pub is_reply_to_bot: bool,
    /// The message text, folded to lower case.
    pub text_lower: Vec<char>,
    /// The message text as received.
    pub text_raw: Vec<char>,
    /// The persona's display name (or the account's default name), lower case.
    pub effective_name_lower: Vec<char>,
    /// The account's default name, lower case.
    pub bot_name_lower: Vec<char>,
    /// The account's `@`-handle, if it has one, matched verbatim.
    pub handle: Option<Vec<char>>,
    /// Conversation-level keywords, lower case.
    pub chat_keywords: Vec<Vec<char>>,
    /// Persona-level keywords, lower case.
    pub persona_keywords: Vec<Vec<char>>,
}

/// The character sequences of a list of keyword vectors.
pub open spec fn keyword_views(kws: Seq<Vec<char>>) -> Seq<Seq<char>> {
    kws.map_values(|k: Vec<char>| k@)
}

/// Holds iff some keyword occurs in the text.
pub open spec fn keyword_hit(text: Seq<char>, kws: Seq<Seq<char>>) -> bool {
    exists|i: int| 0 <= i < kws.len() && contains_seq(text, kws[i])
}

/// Holds iff the message names the persona, the account, or its handle.
pub open spec fn mention_spec(ctx: TriggerContext) -> bool {
    ||| contains_seq(ctx.text_lower@, ctx.effective_name_lower@)
    ||| contains_seq(ctx.text_lower@, ctx.bot_name_lower@)
    ||| (ctx.handle matches Some(h) && contains_seq(ctx.text_raw@, h@))
}

/// The full decision, first matching signal wins.  In "all messages" mode a
/// probability of zero never replies and a probability of one whole unit or
/// more always replies; between the two, the uniform draw decides.
pub open spec fn reply_signal_spec(
    ctx: TriggerContext,
    mode_all: bool,
    probability: u64,
    roll: u64,
) -> Option<ReplySignal> {
    if ctx.is_private {
        Some(ReplySignal::Private)
    } else if ctx.is_reply_to_bot {
        Some(ReplySignal::ReplyToBot)
    } else if mention_spec(ctx) {
        Some(ReplySignal::Mention)
    } else if keyword_hit(ctx.text_lower@, keyword_views(ctx.chat_keywords@)) || keyword_hit(
        ctx.text_lower@,
        keyword_views(ctx.persona_keywords@),
    ) {
        Some(ReplySignal::KeywordTrigger)
    } else if mode_all && probability > 0 && (probability >= SCALE || roll < probability) {
        Some(ReplySignal::RandomDraw)
    } else {
        None
    }
}

/// Reports whether some keyword of `kws` occurs in `text`.
pub fn any_keyword(text: &Vec<char>, kws: &Vec<Vec<char>>) -> (r: bool)
    ensures
        r == keyword_hit(text@, keyword_views(kws@)),
{
    let mut i: usize = 0;
    while i < kws.len()
        invariant
            i <= kws@.len(),
            forall|j: int| 0 <= j < i ==> !contains_seq(text@, keyword_views(kws@)[j]),
        decreases kws@.len() - i,
    {
        if contains_vec(text, &kws[i]) {
            proof {
                assert(contains_seq(text@, keyword_views(kws@)[i as int]));
            }
            return true;
        }
        i = i + 1;
    }
    false
}

/// Evaluates the ordered signals and returns the first that matches.
///
/// `mode_all` says whether the conversation replies to all messages;
/// `probability` is the configured reply probability in micro units, and
/// `roll` a uniform draw below one whole unit.
pub fn reply_signal(ctx: &TriggerContext, mode_all: bool, probability: u64, roll: u64) -> (r:
    Option<ReplySignal>)
    ensures
        r == reply_signal_spec(*ctx, mode_all, probability, roll),
{
    if ctx.is_private {
        return Some(ReplySignal::Private);
    }
    if ctx.is_reply_to_bot {
        return Some(ReplySignal::ReplyToBot);
    }
    let mentioned = contains_vec(&ctx.text_lower, &ctx.effective_name_lower) || contains_vec(
        &ctx.text_lower,
        &ctx.bot_name_lower,
    ) || (match &ctx.handle {
        Some(h) => contains_vec(&ctx.text_raw, h),
        None => false,
    });
    if mentioned {
        return Some(ReplySignal::Mention);
    }
    if any_keyword(&ctx.text_lower, &ctx.chat_keywords) || any_keyword(
        &ctx.text_lower,
        &ctx.persona_keywords,
    ) {
        return Some(ReplySignal::KeywordTrigger);
    }
    if mode_all && probability > 0 && (probability >= SCALE || roll < probability) {
        return Some(ReplySignal::RandomDraw);
    }
    None
}

/// Reports whether a reply should be attempted at all.
pub fn should_reply(ctx: &TriggerContext, mode_all: bool, probability: u64, roll: u64) -> (r:
    bool)
    ensures
        r == (reply_signal_spec(*ctx, mode_all, probability, roll) is Some),
{
    reply_signal(ctx, mode_all, probability, roll).is_some()
}

/// A private conversation always replies, whatever the mode, the configured
/// probability and the draw.
pub proof fn lemma_gate_precedence(
    ctx: TriggerContext,
    mode_all: bool,
    probability: u64,
    roll: u64,
)
    requires
        ctx.is_private,
    ensures
        reply_signal_spec(ctx, mode_all, probability, roll) == Some(ReplySignal::Private),
{
}

/// In "all messages" mode with no stronger signal, a probability of zero
/// never replies and a probability of one whole unit or more always replies.
pub proof fn lemma_probability_edges(ctx: TriggerContext, roll: u64)
    requires
        !ctx.is_private,
        !ctx.is_reply_to_bot,
        !mention_spec(ctx),
        !keyword_hit(ctx.text_lower@, keyword_views(ctx.chat_keywords@)),
        !keyword_hit(ctx.text_lower@, keyword_views(ctx.persona_keywords@)),
    ensures
        reply_signal_spec(ctx, true, 0, roll) is None,
        reply_signal_spec(ctx, true, SCALE, roll) == Some(ReplySignal::RandomDraw),
{
}

/// Parses a comma-separated keyword list: each piece is trimmed and folded to
/// lower case, and empty pieces are dropped.
pub open spec fn parse_keywords_spec(s: Seq<char>) -> Seq<Seq<char>> {
    keep_nonempty(split_spec(s, seq![',']).map_values(|p: Seq<char>| lower_of(trim_spec(p))))
}

/// The subsequence of non-empty entries, in order.
pub open spec fn keep_nonempty(parts: Seq<Seq<char>>) -> Seq<Seq<char>>
    decreases parts.len(),
{
    if parts.len() == 0 {
        Seq::empty()
    } else {
        let rest = keep_nonempty(parts.drop_last());
        if parts.last().len() > 0 {
            rest.push(parts.last())
        } else {
            rest
        }
    }
}

/// Parses a comma-separated keyword list, as `parse_keywords_spec` describes it.
pub fn parse_keywords(s: &str) -> (r: Vec<Vec<char>>)
    ensures
        keyword_views(r@) == parse_keywords_spec(s@),
{
    let chars = chars_of(s);
    let comma: Vec<char> = vec![','];
    proof {
        assert(comma@ =~= seq![',']);
    }
    let parts = split_all(&chars, &comma);
    let ghost mapped = split_spec(s@, seq![',']).map_values(|p: Seq<char>| lower_of(trim_spec(p)));
    let mut out: Vec<Vec<char>> = Vec::new();
    let mut i: usize = 0;
    while i < parts.len()
        invariant
            i <= parts@.len(),
            parts@.map_values(|x: Vec<char>| x@) == split_spec(s@, seq![',']),
            mapped == split_spec(s@, seq![',']).map_values(|p: Seq<char>| lower_of(trim_spec(p))),
            keyword_views(out@) == keep_nonempty(mapped.take(i as int)),
        decreases parts@.len() - i,
    {
        let t = trim(&parts[i]);
        let low = lowercase(string_of(&t).as_str());
        let kw = chars_of(low.as_str());
        proof {
            assert(kw@ == mapped[i as int]);
            assert(mapped.take(i + 1).drop_last() =~= mapped.take(i as int));
            assert(mapped.take(i + 1).last() == mapped[i as int]);
        }
        let ghost out_before = out@;
        if kw.len() > 0 {
            out.push(kw);
            proof {
                assert(keyword_views(out@) =~= keyword_views(out_before).push(mapped[i as int]));
            }
        }
        i = i + 1;
    }
    proof {
        assert(mapped.take(mapped.len() as int) =~= mapped);
    }
    out
}

} // verus!
