//! Splits a generated reply into human-paced chunks and plans their
//! delivery.
//!
//! A raw reply equal to the no-reply sentinel (after trimming) aborts the
//! turn.  Otherwise the reply is split on the chunk delimiter, each piece is
//! trimmed, and empty or sentinel pieces are dropped; nothing is sent when
//! nothing remains.  Pacing is computed from chunk length and typing speed
//! with bounded jitter, so that delivery resembles manual typing.  All
//! randomness comes in as arguments, drawn by the caller.

use vstd::prelude::*;
use crate::text::{chars_of, string_of, split_all, split_spec, trim, trim_spec};

verus! {

/// The delimiter pieces of the reply: split on the delimiter, each piece
/// trimmed.
pub open spec fn trimmed_pieces(raw: Seq<char>, delim: Seq<char>) -> Seq<Seq<char>> {
    split_spec(raw, delim).map_values(|p: Seq<char>| trim_spec(p))
}

/// The pieces that are actually sent: empty and sentinel pieces are dropped,
/// order is kept.
pub open spec fn keep_deliverable(parts: Seq<Seq<char>>, sentinel: Seq<char>) -> Seq<Seq<char>>
    decreases parts.len(),
{
    if parts.len() == 0 {
        Seq::empty()
    } else {
        let rest = keep_deliverable(parts.drop_last(), sentinel);
        if parts.last().len() > 0 && parts.last() != sentinel {
            rest.push(parts.last())
        } else {
            rest
        }
    }
}

/// The chunks one reply turns into.  A reply that trims to the sentinel
/// produces no chunks at all.
pub open spec fn delivery_chunks(raw: Seq<char>, delim: Seq<char>, sentinel: Seq<char>) -> Seq<
    Seq<char>,
> {
    if trim_spec(raw) == sentinel {
        Seq::empty()
    } else {
        keep_deliverable(trimmed_pieces(raw, delim), sentinel)
    }
}

/// Sentinel abort: a raw reply that trims to the sentinel produces zero
/// chunks, so the turn sends nothing and stores nothing.
pub proof fn lemma_sentinel_abort(raw: Seq<char>, delim: Seq<char>, sentinel: Seq<char>)
    requires
        trim_spec(raw) == sentinel,
    ensures
        delivery_chunks(raw, delim, sentinel) == Seq::<Seq<char>>::empty(),
{
}

/// No delivered chunk is empty and none equals the sentinel.
pub proof fn lemma_chunks_clean(parts: Seq<Seq<char>>, sentinel: Seq<char>)
    ensures
        forall|i: int|
            0 <= i < keep_deliverable(parts, sentinel).len() ==> (#[trigger] keep_deliverable(
                parts,
                sentinel,
            )[i]).len() > 0 && keep_deliverable(parts, sentinel)[i] != sentinel,
    decreases parts.len(),
{
    if parts.len() > 0 {
        lemma_chunks_clean(parts.drop_last(), sentinel);
        let rest = keep_deliverable(parts.drop_last(), sentinel);
        let whole = keep_deliverable(parts, sentinel);
        assert forall|i: int| 0 <= i < whole.len() implies (#[trigger] whole[i]).len() > 0
            && whole[i] != sentinel by {
            if parts.last().len() > 0 && parts.last() != sentinel {
                if i < rest.len() {
                    assert(whole[i] == rest[i]);
                } else {
                    assert(whole[i] == parts.last());
                }
            } else {
                assert(whole[i] == rest[i]);
            }
        }
    }
}

/// A planned delivery: the chunks to send, in order, and whether the first
/// one is sent as a threaded reply to the inbound message.
#[derive(Debug)]
pub struct DeliveryPlan {
    pub chunks: Vec<String>,
    pub reply_to_first: bool,
}

/// Plans the delivery of one raw reply, as `delivery_chunks` describes it.
/// Later chunks are never threaded; the first is threaded exactly when the
/// caller decided to reply and something is left to send.
pub fn plan_delivery(raw: &str, delim: &str, sentinel: &str, use_reply: bool) -> (p: DeliveryPlan)
    requires
        delim@.len() > 0,
    ensures
        p.chunks@.map_values(|c: String| c@) == delivery_chunks(raw@, delim@, sentinel@),
        p.reply_to_first == (use_reply && delivery_chunks(raw@, delim@, sentinel@).len() > 0),
{
    let raw_chars = chars_of(raw);
    let delim_chars = chars_of(delim);
    let sentinel_chars = chars_of(sentinel);
    let trimmed = trim(&raw_chars);
    if eq_chars(&trimmed, &sentinel_chars) {
        proof {
            assert(Seq::<String>::empty().map_values(|c: String| c@) =~= Seq::<
                Seq<char>,
            >::empty());
        }
        return DeliveryPlan { chunks: Vec::new(), reply_to_first: false };
    }
    let pieces = split_all(&raw_chars, &delim_chars);
    let ghost mapped = trimmed_pieces(raw@, delim@);
    let mut chunks: Vec<String> = Vec::new();
    let mut i: usize = 0;
    while i < pieces.len()
        invariant
            i <= pieces@.len(),
            pieces@.map_values(|x: Vec<char>| x@) == split_spec(raw@, delim@),
            mapped == trimmed_pieces(raw@, delim@),
            sentinel_chars@ == sentinel@,
            chunks@.map_values(|c: String| c@) == keep_deliverable(
                mapped.take(i as int),
                sentinel@,
            ),
        decreases pieces@.len() - i,
    {
        let t = trim(&pieces[i]);
        proof {
            assert(t@ == mapped[i as int]);
            assert(mapped.take(i + 1).drop_last() =~= mapped.take(i as int));
            assert(mapped.take(i + 1).last() == mapped[i as int]);
        }
        let ghost chunks_before = chunks@;
        if t.len() > 0 && !eq_chars(&t, &sentinel_chars) {
            chunks.push(string_of(&t));
            proof {
                assert(chunks@.map_values(|c: String| c@) =~= chunks_before.map_values(
                    |c: String| c@,
                ).push(t@));
            }
        }
        i = i + 1;
    }
    proof {
        assert(mapped.take(mapped.len() as int) =~= mapped);
    }
    let any = chunks.len() > 0;
    DeliveryPlan { chunks, reply_to_first: use_reply && any }
}

/// Compares two character vectors for equality.
pub fn eq_chars(a: &Vec<char>, b: &Vec<char>) -> (r: bool)
    ensures
        r == (a@ == b@),
{
    if a.len() != b.len() {
        proof {
            assert(a@.len() != b@.len());
        }
        return false;
    }
    let mut i: usize = 0;
    while i < a.len()
        invariant
            i <= a@.len(),
            a@.len() == b@.len(),
            forall|j: int| 0 <= j < i ==> a@[j] == b@[j],
        decreases a@.len() - i,
    {
        if a[i] != b[i] {
            return false;
        }
        i = i + 1;
    }
    proof {
        assert(a@ =~= b@);
    }
    true
}

/// How long typing one chunk takes, in seconds: chunk length over typing
/// speed, with the drawn jitter of up to a fifth either way, clamped between
/// one and thirty seconds.
pub open spec fn typing_secs_spec(len: nat, cpm: u64, roll: u64) -> int {
    let base = (len * 60) as int / (cpm as int);
    let variance = base / 5;
    let offset = (roll as int) % (2 * variance + 1) - variance;
    let jittered = base + offset;
    if jittered < 1 {
        1
    } else if jittered > 30 {
        30
    } else {
        jittered
    }
}

/// Computes the typing time for a chunk, as `typing_secs_spec` describes it.
pub fn calculate_typing_duration(chunk_len: usize, typing_speed_cpm: u64, roll: u64) -> (r: u64)
    requires
        typing_speed_cpm > 0,
        chunk_len <= 1_000_000_000,
    ensures
        r as int == typing_secs_spec(chunk_len as nat, typing_speed_cpm, roll),
        1 <= r <= 30,
{
    proof {
        vstd::arithmetic::div_mod::lemma_div_basics_4((chunk_len * 60) as int,
        typing_speed_cpm as int);
    }
    let base = (chunk_len as u64) * 60 / typing_speed_cpm;
    let variance = base / 5;
    let modulus = 2 * variance + 1;
    let offset = roll % modulus;
    let jittered = if offset >= variance {
        base + (offset - variance)
    } else {
        base - (variance - offset)
    };
    proof {
        assert(jittered as int == (chunk_len * 60) as int / (typing_speed_cpm as int) + (
        roll as int) % (2 * (base / 5) as int + 1) - (base / 5) as int);
    }
    if jittered < 1 {
        1
    } else if jittered > 30 {
        30
    } else {
        jittered
    }
}

/// The extra wait before answering, in seconds: a drawn base between the
/// configured minimum and maximum, plus one reading second per hundred
/// characters of the inbound text.
pub open spec fn response_delay_spec(min_delay: u64, max_delay: u64, text_len: nat, roll: u64)
    -> int {
    min_delay + (roll as int) % (max_delay - min_delay + 1) + (text_len as int) / 100
}

/// Computes the response delay, as `response_delay_spec` describes it.
pub fn calculate_response_delay(min_delay: u64, max_delay: u64, text_len: usize, roll: u64) -> (r:
    u64)
    requires
        min_delay <= max_delay,
        max_delay <= 86400,
    ensures
        r as int == response_delay_spec(min_delay, max_delay, text_len as nat, roll),
        r >= min_delay,
{
    let base = min_delay + roll % (max_delay - min_delay + 1);
    let reading = (text_len as u64) / 100;
    base + reading
}

/// The pause between consecutive chunks, in milliseconds: between half a
/// second and a second and a half.
pub open spec fn chunk_pause_spec(roll: u64) -> int {
    500 + (roll as int) % 1001
}

/// Computes the pause between chunks, as `chunk_pause_spec` describes it.
pub fn chunk_pause_ms(roll: u64) -> (r: u64)
    ensures
        r as int == chunk_pause_spec(roll),
        500 <= r <= 1500,
{
    500 + roll % 1001
}

/// Whether this turn plays the distracted-typist detour: a fifth of turns.
pub fn is_distracted(roll: u64) -> (r: bool)
    ensures
        r == (roll % 100 < 20),
{
    roll % 100 < 20
}

/// How long the distracted detour types before cancelling, in seconds.
pub fn distracted_typing_secs(roll: u64) -> (r: u64)
    ensures
        r as int == 2 + (roll as int) % 3,
        2 <= r <= 4,
{
    2 + roll % 3
}

/// How long the distracted detour then pauses, in seconds.
pub fn distracted_pause_secs(roll: u64) -> (r: u64)
    ensures
        r as int == 3 + (roll as int) % 8,
        3 <= r <= 10,
{
    3 + roll % 8
}

/// A sticker invites a reply four times less often than a text message.
pub fn adjusted_reply_probability(reply_probability: i64, is_sticker: bool) -> (r: i64)
    requires
        reply_probability >= 0,
    ensures
        is_sticker ==> r == reply_probability / 4,
        !is_sticker ==> r == reply_probability,
{
    if is_sticker {
        reply_probability / 4
    } else {
        reply_probability
    }
}

/// The reply decision of a secondary account: a private chat configured to
/// always answer does so; anything else answers when the drawn percentage
/// falls below the adjusted probability.
pub fn userbot_should_reply(
    is_private: bool,
    always_respond_in_pm: bool,
    adjusted_probability: i64,
    roll_percent: u64,
) -> (r: bool)
    requires
        roll_percent < 100,
    ensures
        r == ((is_private && always_respond_in_pm) || (roll_percent as int)
            < adjusted_probability),
{
    (is_private && always_respond_in_pm) || ((roll_percent as i64) < adjusted_probability)
}

/// Whether the answer threads onto the inbound message: never in private
/// chats, always when the inbound message itself was a reply to this
/// account, and otherwise on a halved probability draw.
pub fn decide_use_reply(
    is_private: bool,
    is_reply_to_us: bool,
    use_reply_probability: i64,
    roll_percent: u64,
) -> (r: bool)
    requires
        roll_percent < 100,
    ensures
        is_private ==> r == false,
        !is_private && is_reply_to_us ==> r == true,
        !is_private && !is_reply_to_us ==> r == ((roll_percent as int) < use_reply_probability
            / 2),
{
    if is_private {
        false
    } else if is_reply_to_us {
        true
    } else {
        (roll_percent as i64) < use_reply_probability / 2
    }
}

/// A dry canned reaction to a sticker, picked by the draw.
pub open spec fn sticker_reaction_spec(roll: u64) -> Seq<char> {
    let k = roll % 6;
    if k == 0 {
        "ахах"@
    } else if k == 1 {
        "жиза"@
    } else if k == 2 {
        "норм"@
    } else if k == 3 {
        "кек"@
    } else if k == 4 {
        "лол"@
    } else {
        "хд"@
    }
}

/// Picks the canned sticker reaction, as `sticker_reaction_spec` describes
/// it.
pub fn sticker_reaction(roll: u64) -> (r: String)
    ensures
        r@ == sticker_reaction_spec(roll),
{
    let k = roll % 6;
    let s: &str = if k == 0 {
        "ахах"
    } else if k == 1 {
        "жиза"
    } else if k == 2 {
        "норм"
    } else if k == 3 {
        "кек"
    } else if k == 4 {
        "лол"
    } else {
        "хд"
    };
    String::from_str(s)
}

} // verus!
