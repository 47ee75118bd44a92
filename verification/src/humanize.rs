//! Rewrites a generated reply so that it reads less like an automated
//! response: self-identifications are softened, stock openers are dropped,
//! and the account's own name is not repeated needlessly.

use vstd::prelude::*;
use crate::text::{chars_of, string_of, replace_all, replace_spec, strip_prefix, strip_prefix_spec,
    push_all};

verus! {

/// The whole rewrite chain over one reply, in rule order: soften
/// self-identification (including by the account's name), drop stock
/// openers, soften wording about personal data, drop a leading yes/no, and
/// replace later mentions of the account's name.
pub open spec fn human_rules_spec(resp: Seq<char>, bot_name: Seq<char>) -> Seq<char> {
    let r1 = replace_spec(resp, "I am a bot"@, "I am an AI assistant"@);
    let r2 = replace_spec(r1, "I'm a bot"@, "I'm an AI assistant"@);
    let r3 = replace_spec(r2, "as a bot"@, "as an AI assistant"@);
    let r4 = replace_spec(r3, "as an AI assistant"@, "as an AI"@);
    let r5 = replace_spec(r4, "I am "@ + bot_name, "Hi, I'm an AI"@);
    let r6 = replace_spec(r5, "I'm "@ + bot_name, "Hi, I'm an AI"@);
    let r7 = replace_spec(r6, "Sure, "@, Seq::empty());
    let r8 = replace_spec(r7, "Okay, "@, Seq::empty());
    let r9 = replace_spec(r8, "Certainly, "@, Seq::empty());
    let r10 = replace_spec(r9, "Absolutely, "@, Seq::empty());
    let r11 = replace_spec(r10, "personal information"@, "private details"@);
    let r12 = replace_spec(r11, "personal data"@, "private details"@);
    let r13 = strip_prefix_spec(r12, "Yes, "@);
    let r14 = strip_prefix_spec(r13, "No, "@);
    replace_spec(r14, " "@ + bot_name, " I"@)
}

/// Applies the rewrite chain, as `human_rules_spec` describes it.
pub fn apply_human_behavior_rules(response: String, bot_name: &str) -> (r: String)
    ensures
        r@ == human_rules_spec(response@, bot_name@),
{
    proof {
        reveal_strlit("I am a bot");
        reveal_strlit("I'm a bot");
        reveal_strlit("as a bot");
        reveal_strlit("as an AI assistant");
        reveal_strlit("I am ");
        reveal_strlit("I'm ");
        reveal_strlit("Sure, ");
        reveal_strlit("Okay, ");
        reveal_strlit("Certainly, ");
        reveal_strlit("Absolutely, ");
        reveal_strlit("personal information");
        reveal_strlit("personal data");
        reveal_strlit(" ");
    }
    let name = chars_of(bot_name);
    let mut v = chars_of(response.as_str());
    v = replace_all(&v, &chars_of("I am a bot"), &chars_of("I am an AI assistant"));
    v = replace_all(&v, &chars_of("I'm a bot"), &chars_of("I'm an AI assistant"));
    v = replace_all(&v, &chars_of("as a bot"), &chars_of("as an AI assistant"));
    v = replace_all(&v, &chars_of("as an AI assistant"), &chars_of("as an AI"));
    let mut i_am_name = chars_of("I am ");
    push_all(&mut i_am_name, &name);
    v = replace_all(&v, &i_am_name, &chars_of("Hi, I'm an AI"));
    let mut im_name = chars_of("I'm ");
    push_all(&mut im_name, &name);
    v = replace_all(&v, &im_name, &chars_of("Hi, I'm an AI"));
    let empty: Vec<char> = Vec::new();
    v = replace_all(&v, &chars_of("Sure, "), &empty);
    v = replace_all(&v, &chars_of("Okay, "), &empty);
    v = replace_all(&v, &chars_of("Certainly, "), &empty);
    v = replace_all(&v, &chars_of("Absolutely, "), &empty);
    v = replace_all(&v, &chars_of("personal information"), &chars_of("private details"));
    v = replace_all(&v, &chars_of("personal data"), &chars_of("private details"));
    v = strip_prefix(&v, &chars_of("Yes, "));
    v = strip_prefix(&v, &chars_of("No, "));
    let mut space_name = chars_of(" ");
    push_all(&mut space_name, &name);
    v = replace_all(&v, &space_name, &chars_of(" I"));
    string_of(&v)
}

} // verus!
