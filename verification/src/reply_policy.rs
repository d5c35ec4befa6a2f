//! When an agent's reply is to be kept back.
use vstd::prelude::*;
use crate::text;

verus! {

/// The reply that asks for silence.
pub const NO_REPLY_SENTINEL: &'static str = "NO_REPLY";

/// The instruction that tells an agent of the sentinel.
const NO_REPLY_PROMPT_INSTRUCTION: &'static str =
    "\n\nNO-REPLY BEHAVIOR:\n- If you intentionally want the system to send no user-facing message, respond with exactly NO_REPLY (no extra text).";

/// Whether a reply is the sentinel, but for white space around it.
pub open spec fn asks_for_silence(reply: Seq<char>) -> bool {
    text::trim(reply) == NO_REPLY_SENTINEL@
}

/// Whether a reply is the sentinel, but for white space around it.
pub fn is_no_reply(reply: &str) -> (r: bool)
    ensures
        r == asks_for_silence(reply@),
{
    text::same_text(text::trimmed(reply).as_str(), NO_REPLY_SENTINEL)
}

/// The instruction that tells an agent of the sentinel.
pub fn no_reply_prompt_instruction() -> (r: &'static str)
    ensures
        r@
            == "\n\nNO-REPLY BEHAVIOR:\n- If you intentionally want the system to send no user-facing message, respond with exactly NO_REPLY (no extra text)."@,
{
    NO_REPLY_PROMPT_INSTRUCTION
}

/// Exactly the one word, with nothing but white space around it, keeps a reply back.
pub proof fn law_only_the_one_word_is_silence(reply: Seq<char>)
    ensures
        asks_for_silence(reply) <==> text::trim(reply) == seq![
            'N',
            'O',
            '_',
            'R',
            'E',
            'P',
            'L',
            'Y',
        ],
{
    reveal_strlit("NO_REPLY");
    assert("NO_REPLY"@ =~= seq!['N', 'O', '_', 'R', 'E', 'P', 'L', 'Y']);
}

} // verus!
