//! Renders persona, retrieved memory and recent history into one inference
//! prompt, and assembles chat-style message lists for the backend.
//!
//! The template is deterministic: an identity preamble binding the account's
//! display name, the persona's system prompt verbatim, a labeled memory
//! block only when memories were retrieved, the recent turns oldest first,
//! and a trailing cue naming the identity to elicit the next turn.

use vstd::prelude::*;
use crate::text::{chars_of, string_of, push_all, trim, trim_spec, dec_spec, u64_to_dec};

verus! {

/// One recent turn of the conversation, already resolved to a speaker name.
#[derive(Debug)]
pub struct Turn {
    pub speaker: String,
    pub text: String,
}

/// The mathematical content of a turn.
pub struct TurnView {
    pub speaker: Seq<char>,
    pub text: Seq<char>,
}

/// The view of one turn.
pub open spec fn turn_view(t: Turn) -> TurnView {
    TurnView { speaker: t.speaker@, text: t.text@ }
}

/// The identity preamble binding the display name.
pub open spec fn preamble_spec(name: Seq<char>) -> Seq<char> {
    "System: Your name is "@ + name
        + ". Treat it as your own name, introduce yourself by it, and answer when it is used.\n\n"@
}

/// One bullet per memory, in retrieval order, each trimmed.
pub open spec fn memory_bullets(memories: Seq<Seq<char>>) -> Seq<char>
    decreases memories.len(),
{
    if memories.len() == 0 {
        Seq::empty()
    } else {
        memory_bullets(memories.drop_last()) + "- "@ + trim_spec(memories.last()) + "\n"@
    }
}

/// The labeled memory block; nothing at all when no memories were
/// retrieved, so an empty section never degrades the prompt.
pub open spec fn memory_block_spec(memories: Seq<Seq<char>>) -> Seq<char> {
    if memories.len() == 0 {
        Seq::empty()
    } else {
        "### Relevant Past Memories (for context):\n"@ + memory_bullets(memories)
            + "\n### Current Conversation:\n"@
    }
}

/// The recent turns, oldest first, one `speaker: text` line each.
pub open spec fn history_lines(history: Seq<TurnView>) -> Seq<char>
    decreases history.len(),
{
    if history.len() == 0 {
        Seq::empty()
    } else {
        history_lines(history.drop_last()) + history.last().speaker + ": "@
            + history.last().text + "\n"@
    }
}

/// The whole prompt, in template order.
pub open spec fn prompt_spec(
    persona_prompt: Seq<char>,
    memories: Seq<Seq<char>>,
    history: Seq<TurnView>,
    name: Seq<char>,
) -> Seq<char> {
    preamble_spec(name) + persona_prompt + "\n\n"@ + memory_block_spec(memories) + history_lines(
        history,
    ) + name + ": "@
}

/// Renders the prompt, as `prompt_spec` describes it.
pub fn build_prompt(
    persona_prompt: String,
    long_term_memories: Vec<String>,
    short_term_history: Vec<Turn>,
    bot_name: &str,
) -> (r: String)
    ensures
        r@ == prompt_spec(
            persona_prompt@,
            long_term_memories@.map_values(|m: String| m@),
            short_term_history@.map_values(|t: Turn| turn_view(t)),
            bot_name@,
        ),
{
    let name = chars_of(bot_name);
    let mut v = chars_of("System: Your name is ");
    push_all(&mut v, &name);
    let tail = chars_of(
        ". Treat it as your own name, introduce yourself by it, and answer when it is used.\n\n",
    );
    push_all(&mut v, &tail);
    let prompt_chars = chars_of(persona_prompt.as_str());
    push_all(&mut v, &prompt_chars);
    let sep = chars_of("\n\n");
    push_all(&mut v, &sep);
    let ghost mems = long_term_memories@.map_values(|m: String| m@);
    if long_term_memories.len() > 0 {
        let header = chars_of("### Relevant Past Memories (for context):\n");
        push_all(&mut v, &header);
        let mut i: usize = 0;
        let ghost base = v@;
        proof {
            assert(memory_bullets(mems.take(0int)) =~= Seq::<char>::empty());
            assert(v@ =~= base + memory_bullets(mems.take(0int)));
        }
        while i < long_term_memories.len()
            invariant
                i <= long_term_memories@.len(),
                mems == long_term_memories@.map_values(|m: String| m@),
                v@ == base + memory_bullets(mems.take(i as int)),
            decreases long_term_memories@.len() - i,
        {
            let bullet = chars_of("- ");
            push_all(&mut v, &bullet);
            let m = trim(&chars_of(long_term_memories[i].as_str()));
            push_all(&mut v, &m);
            let nl = chars_of("\n");
            push_all(&mut v, &nl);
            i = i + 1;
            proof {
                assert(mems.take(i as int).drop_last() =~= mems.take(i - 1));
                assert(mems.take(i as int).last() == mems[i - 1]);
                assert(v@ =~= base + memory_bullets(mems.take(i as int)));
            }
        }
        proof {
            assert(mems.take(mems.len() as int) =~= mems);
        }
        let footer = chars_of("\n### Current Conversation:\n");
        push_all(&mut v, &footer);
    }
    let ghost turns = short_term_history@.map_values(|t: Turn| turn_view(t));
    let ghost hist_base = v@;
    let mut j: usize = 0;
    proof {
        assert(history_lines(turns.take(0int)) =~= Seq::<char>::empty());
        assert(v@ =~= hist_base + history_lines(turns.take(0int)));
    }
    while j < short_term_history.len()
        invariant
            j <= short_term_history@.len(),
            turns == short_term_history@.map_values(|t: Turn| turn_view(t)),
            v@ == hist_base + history_lines(turns.take(j as int)),
        decreases short_term_history@.len() - j,
    {
        let speaker = chars_of(short_term_history[j].speaker.as_str());
        push_all(&mut v, &speaker);
        let colon = chars_of(": ");
        push_all(&mut v, &colon);
        let text = chars_of(short_term_history[j].text.as_str());
        push_all(&mut v, &text);
        let nl = chars_of("\n");
        push_all(&mut v, &nl);
        j = j + 1;
        proof {
            assert(turns.take(j as int).drop_last() =~= turns.take(j - 1));
            assert(turns.take(j as int).last() == turns[j - 1]);
            assert(v@ =~= hist_base + history_lines(turns.take(j as int)));
        }
    }
    proof {
        assert(turns.take(turns.len() as int) =~= turns);
    }
    push_all(&mut v, &name);
    let cue = chars_of(": ");
    push_all(&mut v, &cue);
    proof {
        assert(v@ =~= prompt_spec(persona_prompt@, mems, turns, bot_name@));
    }
    string_of(&v)
}

/// The numbered lines of the recalled-memories block: the entry at
/// position `k` carries the number `k + 1`.
pub open spec fn memory_context_lines(memories: Seq<Seq<char>>) -> Seq<char>
    decreases memories.len(),
{
    if memories.len() == 0 {
        Seq::empty()
    } else {
        memory_context_lines(memories.drop_last()) + dec_spec(memories.len() as nat) + ". "@
            + memories.last() + "\n"@
    }
}

/// The recalled-memories context handed to the chat backend as a system
/// message: nothing at all when nothing was recalled, else a labeled
/// numbered block, entries in retrieval order.
pub open spec fn memory_context_spec(memories: Seq<Seq<char>>) -> Option<Seq<char>> {
    if memories.len() == 0 {
        None
    } else {
        Some("[ВСПЛЫВШИЕ ВОСПОМИНАНИЯ О ПРОШЛЫХ ДИАЛОГАХ]\n\n"@ + memory_context_lines(memories))
    }
}

/// Formats the recalled memories, as `memory_context_spec` describes it.
pub fn format_memory_context(memories: &Vec<String>) -> (r: Option<String>)
    ensures
        match r {
            Some(c) => memory_context_spec(memories@.map_values(|m: String| m@)) == Some(c@),
            None => memories@.len() == 0,
        },
{
    let ghost views = memories@.map_values(|m: String| m@);
    if memories.len() == 0 {
        return None;
    }
    let mut v = chars_of("[ВСПЛЫВШИЕ ВОСПОМИНАНИЯ О ПРОШЛЫХ ДИАЛОГАХ]\n\n");
    let ghost base = v@;
    let mut i: usize = 0;
    proof {
        assert(memory_context_lines(views.take(0int)) =~= Seq::<char>::empty());
        assert(v@ =~= base + memory_context_lines(views.take(0int)));
    }
    while i < memories.len()
        invariant
            i <= memories@.len(),
            views == memories@.map_values(|m: String| m@),
            v@ == base + memory_context_lines(views.take(i as int)),
        decreases memories@.len() - i,
    {
        let num = u64_to_dec((i + 1) as u64);
        push_all(&mut v, &num);
        let dot = chars_of(". ");
        push_all(&mut v, &dot);
        let content = chars_of(memories[i].as_str());
        push_all(&mut v, &content);
        let nl = chars_of("\n");
        push_all(&mut v, &nl);
        i = i + 1;
        proof {
            assert(views.take(i as int).drop_last() =~= views.take(i - 1));
            assert(views.take(i as int).last() == views[i - 1]);
            assert(views.take(i as int).len() == i);
            assert(v@ =~= base + memory_context_lines(views.take(i as int)));
        }
    }
    proof {
        assert(views.take(views.len() as int) =~= views);
    }
    Some(string_of(&v))
}

/// One chat-style message for the backend.
#[derive(Debug)]
pub struct OllamaMessage {
    pub role: String,
    pub content: String,
}

/// The mathematical content of a chat message.
pub struct MsgView {
    pub role: Seq<char>,
    pub content: Seq<char>,
}

/// The view of one chat message.
pub open spec fn msg_view(m: OllamaMessage) -> MsgView {
    MsgView { role: m.role@, content: m.content@ }
}

/// One chat request to the backend.
#[derive(Debug)]
pub struct OllamaChatRequest {
    pub model: String,
    pub messages: Vec<OllamaMessage>,
    pub stream: bool,
}

/// The views of a message list.
pub open spec fn msg_views(s: Seq<OllamaMessage>) -> Seq<MsgView> {
    s.map_values(|m: OllamaMessage| msg_view(m))
}

/// The message list of one chat turn: the system prompt first, then the
/// optional memory and search contexts as further system messages, the
/// recent history as it stands, and the inbound message last, as the user.
pub open spec fn chat_messages_spec(
    system_prompt: Seq<char>,
    memory_context: Option<Seq<char>>,
    search_context: Option<Seq<char>>,
    history: Seq<MsgView>,
    user_message: Seq<char>,
) -> Seq<MsgView> {
    let sys = seq![MsgView { role: "system"@, content: system_prompt }];
    let mem = match memory_context {
        Some(c) => seq![MsgView { role: "system"@, content: c }],
        None => Seq::empty(),
    };
    let sea = match search_context {
        Some(c) => seq![MsgView { role: "system"@, content: c }],
        None => Seq::empty(),
    };
    sys + mem + sea + history + seq![MsgView { role: "user"@, content: user_message }]
}

/// Assembles the message list, as `chat_messages_spec` describes it.
pub fn build_chat_messages(
    system_prompt: String,
    memory_context: Option<String>,
    search_context: Option<String>,
    history: Vec<OllamaMessage>,
    user_message: String,
) -> (r: Vec<OllamaMessage>)
    ensures
        msg_views(r@) == chat_messages_spec(
            system_prompt@,
            match memory_context {
                Some(c) => Some(c@),
                None => None,
            },
            match search_context {
                Some(c) => Some(c@),
                None => None,
            },
            msg_views(history@),
            user_message@,
        ),
{
    let ghost mem_arg = match memory_context {
        Some(ref c) => Some(c@),
        None => None::<Seq<char>>,
    };
    let ghost sea_arg = match search_context {
        Some(ref c) => Some(c@),
        None => None::<Seq<char>>,
    };
    let ghost hist = msg_views(history@);
    let mut messages = history;
    match search_context {
        Some(c) => {
            let ghost before = messages@;
            messages.insert(0, OllamaMessage { role: String::from_str("system"), content: c });
            proof {
                lemma_msg_views_prepend(before, messages@.first());
                assert(messages@.drop_first() =~= before);
            }
        },
        None => {},
    }
    match memory_context {
        Some(c) => {
            let ghost before = messages@;
            messages.insert(0, OllamaMessage { role: String::from_str("system"), content: c });
            proof {
                lemma_msg_views_prepend(before, messages@.first());
                assert(messages@.drop_first() =~= before);
            }
        },
        None => {},
    }
    {
        let ghost before = messages@;
        messages.insert(
            0,
            OllamaMessage { role: String::from_str("system"), content: system_prompt },
        );
        proof {
            lemma_msg_views_prepend(before, messages@.first());
            assert(messages@.drop_first() =~= before);
        }
    }
    {
        let ghost before = messages@;
        messages.push(OllamaMessage { role: String::from_str("user"), content: user_message });
        proof {
            lemma_msg_views_push(before, messages@.last());
            assert(messages@.drop_last() =~= before);
        }
    }
    proof {
        assert(msg_views(messages@) =~~= chat_messages_spec(
            system_prompt@,
            mem_arg,
            sea_arg,
            hist,
            user_message@,
        ));
    }
    messages
}

/// Putting one message in front shifts every view by one.
proof fn lemma_msg_views_prepend(s: Seq<OllamaMessage>, e: OllamaMessage)
    ensures
        msg_views(seq![e] + s) == seq![msg_view(e)] + msg_views(s),
{
    assert(msg_views(seq![e] + s) =~= seq![msg_view(e)] + msg_views(s)) by {
        assert((seq![e] + s)[0] == e);
        assert(forall|i: int| 0 <= i < s.len() ==> (seq![e] + s)[i + 1] == s[i]);
    }
}

/// Appending one message appends its view.
proof fn lemma_msg_views_push(s: Seq<OllamaMessage>, e: OllamaMessage)
    ensures
        msg_views(s.push(e)) == msg_views(s).push(msg_view(e)),
{
    assert(msg_views(s.push(e)) =~= msg_views(s).push(msg_view(e)));
}

/// How a bounded history buffer takes one more turn: the turn is appended
/// and, past the depth, the oldest turn leaves.
pub open spec fn history_after_push(h: Seq<TurnView>, t: TurnView, depth: int) -> Seq<TurnView> {
    let pushed = h.push(t);
    if pushed.len() > depth {
        pushed.drop_first()
    } else {
        pushed
    }
}

/// Appends one turn to the conversation's recent history, evicting the
/// oldest once the buffer exceeds `depth`, as `history_after_push`
/// describes it.
pub fn add_message_to_history(history: &mut Vec<Turn>, turn: Turn, depth: usize)
    ensures
        final(history)@.map_values(|t: Turn| turn_view(t)) == history_after_push(
            old(history)@.map_values(|t: Turn| turn_view(t)),
            turn_view(turn),
            depth as int,
        ),
{
    let ghost before = history@.map_values(|t: Turn| turn_view(t));
    let ghost pushed_turn = turn_view(turn);
    history.push(turn);
    proof {
        assert(history@.map_values(|t: Turn| turn_view(t)) =~= before.push(pushed_turn));
    }
    if history.len() > depth {
        let ghost full = history@;
        let _oldest = history.remove(0);
        proof {
            assert(history@ =~= full.drop_first());
            assert(forall|i: int| 0 <= i < history@.len() ==> history@[i] == full[i + 1]);
            assert(full.map_values(|t: Turn| turn_view(t)) == before.push(pushed_turn));
            assert(history@.map_values(|t: Turn| turn_view(t)) =~= before.push(
                pushed_turn,
            ).drop_first());
        }
    }
}

} // verus!

