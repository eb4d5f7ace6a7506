//! A bot orchestration host and its plugins' runtime: the message bus that
//! carries datapacks between plugin processes, the decisions of the host's
//! plugin supervisor and of the OneBot adapter's connection supervisor, and
//! the logic of the bundled plugins.
//!
//! Every function here is verified; byte streams, processes, tasks and
//! sockets are the caller's.

/// Base-N text encoding of byte strings.
pub mod basex;
/// Datapacks and stream framing.
pub mod datapack;
/// The pending-response table.
pub mod correlate;
/// Path dispatch and replies.
pub mod router;
/// The configuration store.
pub mod conf;
/// The host's plugin supervisor.
pub mod loader;
/// The OneBot adapter's decisions.
pub mod onebot;
/// The plugin side of the bus.
pub mod plugin;
/// Shared records and message segments.
pub mod types;
/// Admin credential checks.
pub mod auth;
/// Dice rolls.
pub mod dice;
/// The base-N crypt and echo commands.
pub mod crypt;
/// The mute command.
pub mod manage;
/// The chat assistant's bookkeeping.
pub mod ai;
/// The Minecraft server card.
pub mod mctools;
/// GitHub push notices.
pub mod ghnotify;
/// Text helpers.
pub mod text;
