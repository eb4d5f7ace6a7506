//! The chat assistant plugin's bookkeeping: its defaults, which messages it
//! answers, and the bounded conversation history kept per channel.
use std::collections::VecDeque;
use vstd::prelude::*;

use crate::datapack::Channel;
use crate::text::{trim, trim_spec};
use crate::types::CommonSegment;

verus! {

pub fn default_base_url() -> (r: String)
    ensures
        r@ == "https://openrouter.ai/api/v1"@,
{
    "https://openrouter.ai/api/v1".to_owned()
}

pub fn default_model() -> (r: String)
    ensures
        r@ == "openai/gpt-5-chat"@,
{
    "openai/gpt-5-chat".to_owned()
}

pub fn default_preamble() -> (r: String)
    ensures
        r@ == "You are a helpful assistant."@,
{
    "You are a helpful assistant.".to_owned()
}

pub fn default_max_history() -> (r: usize)
    ensures
        r == 20,
{
    20
}

/// Who said a line of the history.
#[derive(Debug, Clone, Copy, PartialEq, Eq, Structural)]
pub enum Role {
    User,
    Assistant,
}

/// One line of a conversation.
#[derive(Debug)]
pub struct Turn {
    pub role: Role,
    pub text: String,
}

/// The history after trimming: the oldest lines dropped until at most `max`
/// remain, then one more if the oldest left is the assistant's.
pub open spec fn shifted(h: Seq<Turn>, max: nat) -> Seq<Turn> {
    let kept = if h.len() > max {
        h.skip(h.len() - max)
    } else {
        h
    };
    if kept.len() > 0 && kept[0].role == Role::Assistant {
        kept.skip(1)
    } else {
        kept
    }
}

/// Keeps the history short, and starting with a user line.
pub fn shift_history(history: &mut VecDeque<Turn>, max_history: usize)
    ensures
        final(history)@ == shifted(old(history)@, max_history as nat),
{
    let ghost orig = history@;
    proof {
        assert(orig.skip(0) =~= orig);
    }
    while history.len() > max_history
        invariant
            history@.len() <= orig.len(),
            history@ == orig.skip(orig.len() - history@.len()),
            history@.len() >= max_history || orig.len() <= max_history,
            orig.len() > max_history ==> history@.len() >= max_history,
            orig.len() <= max_history ==> history@ == orig,
        decreases history@.len(),
    {
        let ghost before = history@;
        history.pop_front();
        proof {
            assert(history@ == before.subrange(1, before.len() as int));
            let k = orig.len() - before.len();
            assert(before == orig.skip(k));
            assert forall|j: int| 0 <= j < history@.len() implies history@[j] == orig.skip(k + 1)[j] by {
                assert(history@[j] == before[j + 1]);
                assert(before[j + 1] == orig[k + j + 1]);
            }
            assert(history@.len() == orig.skip(k + 1).len());
            assert(history@ =~= orig.skip(k + 1));
        }
    }
    proof {
        if orig.len() > max_history {
            assert(history@ =~= orig.skip(orig.len() - max_history));
        } else {
            assert(orig.skip(0) =~= orig);
        }
    }
    if history.len() > 0 && history[0].role == Role::Assistant {
        let ghost before = history@;
        history.pop_front();
        proof {
            assert(history@ == before.subrange(1, before.len() as int));
            assert(history@ =~= before.skip(1));
        }
    }
}

/// The texts of the text segments, each trimmed, concatenated.
pub open spec fn trimmed_text(segs: Seq<CommonSegment>) -> Seq<char>
    decreases segs.len(),
{
    if segs.len() == 0 {
        Seq::empty()
    } else {
        trimmed_text(segs.drop_last()) + match segs.last() {
            CommonSegment::Text(t) => trim_spec(t@),
            _ => Seq::empty(),
        }
    }
}

/// The text of a message addressed to the bot: its text segments, trimmed
/// and joined; nothing when that is blank.
pub fn text_only(msg: &Vec<CommonSegment>) -> (r: Option<String>)
    ensures
        r is None <==> trim_spec(trimmed_text(msg@)).len() == 0,
        r matches Some(s) ==> s@ == trimmed_text(msg@),
{
    let mut s = String::new();
    let mut i: usize = 0;
    while i < msg.len()
        invariant
            i <= msg@.len(),
            s@ == trimmed_text(msg@.subrange(0, i as int)),
        decreases msg@.len() - i,
    {
        proof {
            assert(msg@.subrange(0, i as int + 1).drop_last() =~= msg@.subrange(0, i as int));
        }
        match &msg[i] {
            CommonSegment::Text(t) => {
                let tt = trim(t.as_str());
                s.append(tt.as_str());
            },
            _ => {
                proof {
                    assert(s@ + Seq::<char>::empty() =~= s@);
                }
            },
        }
        i = i + 1;
    }
    proof {
        assert(msg@.subrange(0, msg@.len() as int) =~= msg@);
    }
    if trim(s.as_str()).as_str().unicode_len() == 0 {
        None
    } else {
        Some(s)
    }
}

/// Whose history a message belongs to: the group, else the bot's identity,
/// else a shared history.
pub fn history_key(channel: &Channel) -> (r: String)
    ensures
        channel.parent_id matches Some(p) ==> r == p,
        channel.parent_id is None ==> (channel.self_id matches Some(s) ==> r == s),
        channel.parent_id is None && channel.self_id is None ==> r@ == "global"@,
{
    match &channel.parent_id {
        Some(p) => p.clone(),
        None => match &channel.self_id {
            Some(s) => s.clone(),
            None => "global".to_owned(),
        },
    }
}

} // verus!
