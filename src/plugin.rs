//! The plugin side of the bus: command-line discovery, the handshake, and
//! the small decisions of a plugin's request helpers.
use vstd::prelude::*;

use crate::datapack::{clone_opt_string, path_of, Channel, DataPack};
use crate::loader::INIT_PATH;
use crate::onebot::Inbound;
use crate::text::{str_eq, trim, trim_spec};

verus! {

/// Whether some argument, trimmed, is exactly `flag`.
pub open spec fn has_flag_spec(args: Seq<String>, flag: Seq<char>) -> bool {
    exists|i: int| 0 <= i < args.len() && trim_spec(#[trigger] args[i]@) == flag
}

/// Whether some argument, trimmed, is exactly `flag`.
pub fn has_flag(args: &Vec<String>, flag: &str) -> (r: bool)
    ensures
        r == has_flag_spec(args@, flag@),
{
    let mut i: usize = 0;
    while i < args.len()
        invariant
            i <= args@.len(),
            forall|j: int| 0 <= j < i ==> trim_spec(#[trigger] args@[j]@) != flag@,
        decreases args@.len() - i,
    {
        let t = trim(args[i].as_str());
        if str_eq(t.as_str(), flag) {
            return true;
        }
        i = i + 1;
    }
    false
}

/// What a plugin prints instead of serving: its version for `--version`,
/// else its name for `--name`, else nothing (it serves).
pub fn handle_options(args: &Vec<String>, version: &str, name: &str) -> (r: Option<String>)
    ensures
        has_flag_spec(args@, "--version"@) ==> (r matches Some(s) && s@ == version@),
        !has_flag_spec(args@, "--version"@) && has_flag_spec(args@, "--name"@) ==> (r matches Some(
            s,
        ) && s@ == name@),
        !has_flag_spec(args@, "--version"@) && !has_flag_spec(args@, "--name"@) ==> r is None,
{
    if has_flag(args, "--version") {
        Some(version.to_owned())
    } else if has_flag(args, "--name") {
        Some(name.to_owned())
    } else {
        None
    }
}

/// The handshake packet from the host: the encoded `Initialize` record on
/// the handshake path.
pub fn init_datapack(id: u128, payload: Vec<u8>) -> (r: DataPack)
    ensures
        r.id == id,
        r.correlate is None,
        path_of(r) == Some(INIT_PATH@),
        r.bot_id is None,
        r.channel is None,
        r.payload == payload,
{
    DataPack::request(id, INIT_PATH.to_owned(), payload)
}

/// What the receive task of the adapter sees.
pub enum RecvEvent {
    /// An upstream message, mapped for the bus.
    Message(Inbound),
    /// The socket failed.
    Error,
    /// Nothing arrived for a whole health-check interval.
    Idle,
}

/// What the receive task does next.
pub enum RecvAction {
    /// Put this packet on the bus.
    Emit(DataPack),
    /// Set the health flag.
    SetHealth(bool),
    /// Nothing.
    Skip,
    /// End the task, which tears the connection down.
    Stop,
}

/// The receive task's step: mapped messages go on the bus or set the
/// health flag, a socket error ends the task, and a silent interval marks
/// the connection unhealthy.
pub fn recv_step(e: RecvEvent) -> (r: RecvAction)
    ensures
        e matches RecvEvent::Message(Inbound::Forward(p)) ==> r == RecvAction::Emit(p),
        e matches RecvEvent::Message(Inbound::Health(v)) ==> r == RecvAction::SetHealth(v),
        e matches RecvEvent::Message(Inbound::Ignore) ==> r is Skip,
        e is Error ==> r is Stop,
        e is Idle ==> r == RecvAction::SetHealth(false),
{
    match e {
        RecvEvent::Message(Inbound::Forward(p)) => RecvAction::Emit(p),
        RecvEvent::Message(Inbound::Health(v)) => RecvAction::SetHealth(v),
        RecvEvent::Message(Inbound::Ignore) => RecvAction::Skip,
        RecvEvent::Error => RecvAction::Stop,
        RecvEvent::Idle => RecvAction::SetHealth(false),
    }
}

/// A request to mute a member of a channel for some seconds.
#[derive(Debug)]
pub struct SetMute {
    pub channel: Channel,
    pub duration_secs: u64,
}

/// Why a mute request could not be made.
#[derive(Debug)]
pub enum SetMuteError {
    /// Posting the request failed; the message says why.
    Post(String),
    /// The request being answered names no channel.
    ContextNotIncludedChannel,
}

/// The mute request for member `user` of the channel of `request`: that
/// channel with the member's id in place of its own.
pub fn mute_member(request: &DataPack, user: String, duration_secs: u64) -> (r: Result<SetMute, SetMuteError>)
    ensures
        request.channel is None ==> r matches Err(SetMuteError::ContextNotIncludedChannel),
        request.channel matches Some(c) ==> (r matches Ok(m) && m.channel == (Channel { id: user, ..c })
            && m.duration_secs == duration_secs),
{
    match &request.channel {
        None => Err(SetMuteError::ContextNotIncludedChannel),
        Some(c) => Ok(
            SetMute {
                channel: Channel {
                    id: user,
                    ty: c.ty,
                    name: c.name.clone(),
                    parent_id: clone_opt_string(&c.parent_id),
                    self_id: clone_opt_string(&c.self_id),
                },
                duration_secs,
            },
        ),
    }
}

/// Whether `user` is one of the admins.
pub fn auth(user: &String, admins: &Vec<String>) -> (r: bool)
    ensures
        r == exists|i: int| 0 <= i < admins@.len() && #[trigger] admins@[i]@ == user@,
{
    let mut i: usize = 0;
    while i < admins.len()
        invariant
            i <= admins@.len(),
            forall|j: int| 0 <= j < i ==> #[trigger] admins@[j]@ != user@,
        decreases admins@.len() - i,
    {
        if admins[i] == *user {
            return true;
        }
        i = i + 1;
    }
    false
}

} // verus!
