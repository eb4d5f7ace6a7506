//! The OneBot adapter's decisions: reconnect backoff, the connection
//! supervisor, the health check, and how upstream messages map onto the bus.
//!
//! Sockets, timers and tasks are the caller's; each function here takes what
//! happened and says what to do next.
use base64::Engine;
use vstd::prelude::*;

use crate::datapack::{Channel, ChannelType, DataPack};
use crate::plugin::SetMute;
use crate::text::{concat, str_eq};
use crate::types::CommonSegment;

verus! {

/// Connection attempts within one connect cycle.
pub const CONNECT_ATTEMPTS: u32 = 7;

/// The first pause between connection attempts, in milliseconds.
pub const INITIAL_DELAY_MS: u64 = 500;

/// The longest pause between connection attempts, before jitter.
pub const MAX_DELAY_MS: u64 = 30_000;

/// Random jitter added to each pause is below this many milliseconds.
pub const JITTER_BOUND_MS: u64 = 1000;

/// The pause after a connection ends, or a connect cycle fails, before the
/// next cycle.
pub const RECONNECT_PAUSE_MS: u64 = 5000;

/// The default seconds between health checks.
pub fn default_health_check_interval() -> (r: u64)
    ensures
        r == 30,
{
    30
}

/// `a + b`, saturating at `u64::MAX`.
pub open spec fn sat_add(a: u64, b: u64) -> u64 {
    if a + b > u64::MAX {
        u64::MAX
    } else {
        (a + b) as u64
    }
}

/// The pause after `d`: doubled (saturating), capped at `max`, plus `jitter`
/// (saturating).
pub open spec fn next_delay(d: u64, max: u64, jitter: u64) -> u64 {
    let doubled = if 2 * d > u64::MAX {
        u64::MAX
    } else {
        (2 * d) as u64
    };
    sat_add(if doubled < max { doubled } else { max }, jitter)
}

/// Exponential backoff between attempts of one operation.
#[derive(Debug, Clone, Copy, PartialEq, Eq, Structural)]
pub struct Backoff {
    /// The pause before the next attempt.
    pub delay_ms: u64,
    /// Failed attempts retried so far.
    pub retries: u32,
    pub max_retries: u32,
    pub max_delay_ms: u64,
}

/// What to do after a failed attempt.
#[derive(Debug, Clone, Copy, PartialEq, Eq, Structural)]
pub enum Attempt {
    /// Sleep this long, then try again.
    Retry { sleep_ms: u64 },
    /// Retries are used up: report the last error.
    GiveUp,
}

/// The backoff of one connect cycle, before any attempt failed.
pub open spec fn connect_policy() -> Backoff {
    Backoff {
        delay_ms: INITIAL_DELAY_MS,
        retries: 0,
        max_retries: (CONNECT_ATTEMPTS - 1) as u32,
        max_delay_ms: MAX_DELAY_MS,
    }
}

/// The backoff after `n` failed attempts with no jitter, and what the last
/// of them gave.
pub open spec fn after_failures(b: Backoff, n: nat) -> (Backoff, Attempt)
    decreases n,
{
    if n <= 1 {
        b.failure_spec(0)
    } else {
        after_failures(b, (n - 1) as nat).0.failure_spec(0)
    }
}

impl Backoff {
    pub fn new(max_retries: u32, initial_delay_ms: u64, max_delay_ms: u64) -> (r: Backoff)
        ensures
            r == (Backoff { delay_ms: initial_delay_ms, retries: 0, max_retries, max_delay_ms }),
    {
        Backoff { delay_ms: initial_delay_ms, retries: 0, max_retries, max_delay_ms }
    }

    /// The policy of one connect cycle: up to seven attempts (the first and
    /// six retries), pausing half a second first, doubling up to thirty
    /// seconds.
    pub fn for_connect() -> (r: Backoff)
        ensures
            r == connect_policy(),
    {
        Backoff::new(CONNECT_ATTEMPTS - 1, INITIAL_DELAY_MS, MAX_DELAY_MS)
    }

    /// The step after a failed attempt, with `jitter` milliseconds of
    /// randomness for the following pause.
    pub open spec fn failure_spec(self, jitter: u64) -> (Backoff, Attempt) {
        if self.retries >= self.max_retries {
            (self, Attempt::GiveUp)
        } else {
            (
                Backoff {
                    delay_ms: next_delay(self.delay_ms, self.max_delay_ms, jitter),
                    retries: (self.retries + 1) as u32,
                    ..self
                },
                Attempt::Retry { sleep_ms: self.delay_ms },
            )
        }
    }

    /// Records a failed attempt and says whether to retry, and after how long.
    pub fn on_failure(&mut self, jitter: u64) -> (r: Attempt)
        ensures
            (*final(self), r) == old(self).failure_spec(jitter),
    {
        if self.retries >= self.max_retries {
            return Attempt::GiveUp;
        }
        let sleep_ms = self.delay_ms;
        let doubled = if self.delay_ms > u64::MAX / 2 {
            u64::MAX
        } else {
            self.delay_ms * 2
        };
        let capped = if doubled < self.max_delay_ms {
            doubled
        } else {
            self.max_delay_ms
        };
        self.delay_ms = if capped > u64::MAX - jitter {
            u64::MAX
        } else {
            capped + jitter
        };
        self.retries = self.retries + 1;
        Attempt::Retry { sleep_ms }
    }
}

/// Relies on `fastrand::u64` over an inclusive range: a random number within
/// it (the range is never empty here, so it does not panic).
#[verifier::external_body]
pub fn random_in(lo: u64, hi: u64) -> (r: u64)
    requires
        lo <= hi,
    ensures
        lo <= r <= hi,
{
    fastrand::u64(lo..=hi)
}

/// The jitter that a random draw gives: the draw modulo one second.
pub fn jitter_of(draw: u64) -> (r: u64)
    ensures
        r == draw % JITTER_BOUND_MS,
        r < JITTER_BOUND_MS,
{
    draw % JITTER_BOUND_MS
}

/// Random jitter for a pause, below one second.
pub fn jitter_ms() -> (r: u64)
    ensures
        r < JITTER_BOUND_MS,
{
    jitter_of(random_in(0, u64::MAX))
}

/// Where the connection supervisor stands.
#[derive(Debug, Clone, Copy, PartialEq, Eq, Structural)]
pub enum Supervisor {
    Connecting,
    Connected,
    Pausing,
}

/// What happened to the connection.
#[derive(Debug, Clone, Copy, PartialEq, Eq, Structural)]
pub enum SupervisorEvent {
    /// A connect cycle succeeded.
    ConnectOk,
    /// A connect cycle used up its retries.
    ConnectFailed,
    /// One of the connection's tasks ended, so the connection was torn down.
    ConnectionEnded,
    /// The pause between cycles is over.
    PauseOver,
}

/// What the supervisor does next.
#[derive(Debug, Clone, Copy, PartialEq, Eq, Structural)]
pub enum SupervisorAction {
    /// Run the send, receive and health tasks on the new connection.
    RunConnection,
    /// Sleep, then report `PauseOver`.
    Sleep { ms: u64 },
    /// Start a connect cycle.
    Connect,
    /// Nothing to do for this event in this state.
    Wait,
}

/// The supervisor's next state and action.
pub open spec fn supervisor_spec(s: Supervisor, e: SupervisorEvent) -> (Supervisor, SupervisorAction) {
    match (s, e) {
        (Supervisor::Connecting, SupervisorEvent::ConnectOk) => (
            Supervisor::Connected,
            SupervisorAction::RunConnection,
        ),
        (Supervisor::Connecting, SupervisorEvent::ConnectFailed) => (
            Supervisor::Pausing,
            SupervisorAction::Sleep { ms: RECONNECT_PAUSE_MS },
        ),
        (Supervisor::Connected, SupervisorEvent::ConnectionEnded) => (
            Supervisor::Pausing,
            SupervisorAction::Sleep { ms: RECONNECT_PAUSE_MS },
        ),
        (Supervisor::Pausing, SupervisorEvent::PauseOver) => (
            Supervisor::Connecting,
            SupervisorAction::Connect,
        ),
        _ => (s, SupervisorAction::Wait),
    }
}

pub fn supervisor_step(s: Supervisor, e: SupervisorEvent) -> (r: (Supervisor, SupervisorAction))
    ensures
        r == supervisor_spec(s, e),
{
    match (s, e) {
        (Supervisor::Connecting, SupervisorEvent::ConnectOk) => (
            Supervisor::Connected,
            SupervisorAction::RunConnection,
        ),
        (Supervisor::Connecting, SupervisorEvent::ConnectFailed) => (
            Supervisor::Pausing,
            SupervisorAction::Sleep { ms: RECONNECT_PAUSE_MS },
        ),
        (Supervisor::Connected, SupervisorEvent::ConnectionEnded) => (
            Supervisor::Pausing,
            SupervisorAction::Sleep { ms: RECONNECT_PAUSE_MS },
        ),
        (Supervisor::Pausing, SupervisorEvent::PauseOver) => (
            Supervisor::Connecting,
            SupervisorAction::Connect,
        ),
        _ => (s, SupervisorAction::Wait),
    }
}

/// Where the health-check task stands.
#[derive(Debug, Clone, Copy, PartialEq, Eq, Structural)]
pub enum HealthState {
    /// Waiting for the health flag to change.
    Idle,
    /// A status request is out; its answer is awaited until a deadline.
    Probing,
}

/// What the health-check task observes.
#[derive(Debug, Clone, Copy, PartialEq, Eq, Structural)]
pub enum HealthEvent {
    /// The health flag was set, to this value.
    Changed(bool),
    /// The deadline for the status answer passed.
    Deadline,
}

/// Why the health check ended the connection.
#[derive(Debug, Clone, Copy, PartialEq, Eq, Structural)]
pub enum HealthFailure {
    /// No status answer came in time.
    Timeout,
    /// The upstream reported that it is not healthy.
    Unhealthy,
}

/// What the health-check task does next.
#[derive(Debug, Clone, Copy, PartialEq, Eq, Structural)]
pub enum HealthAction {
    /// Send a status request upstream and await a change until `deadline_ms`
    /// from now.
    Probe { deadline_ms: u64 },
    /// Keep waiting.
    Wait,
    /// End the task, which tears the connection down.
    Stop(HealthFailure),
}

/// The answer deadline: half the health-check interval.
pub open spec fn deadline_of(interval_ms: u64) -> u64 {
    (interval_ms / 2) as u64
}

/// The health-check task's next state and action.
pub open spec fn health_spec(s: HealthState, e: HealthEvent, interval_ms: u64) -> (
    HealthState,
    HealthAction,
) {
    match (s, e) {
        (HealthState::Idle, HealthEvent::Changed(_)) => (
            HealthState::Probing,
            HealthAction::Probe { deadline_ms: deadline_of(interval_ms) },
        ),
        (HealthState::Idle, HealthEvent::Deadline) => (HealthState::Idle, HealthAction::Wait),
        (HealthState::Probing, HealthEvent::Deadline) => (
            HealthState::Probing,
            HealthAction::Stop(HealthFailure::Timeout),
        ),
        (HealthState::Probing, HealthEvent::Changed(false)) => (
            HealthState::Probing,
            HealthAction::Stop(HealthFailure::Unhealthy),
        ),
        (HealthState::Probing, HealthEvent::Changed(true)) => (HealthState::Idle, HealthAction::Wait),
    }
}

pub fn health_step(s: HealthState, e: HealthEvent, interval_ms: u64) -> (r: (HealthState, HealthAction))
    ensures
        r == health_spec(s, e, interval_ms),
{
    match (s, e) {
        (HealthState::Idle, HealthEvent::Changed(_)) => (
            HealthState::Probing,
            HealthAction::Probe { deadline_ms: interval_ms / 2 },
        ),
        (HealthState::Idle, HealthEvent::Deadline) => (HealthState::Idle, HealthAction::Wait),
        (HealthState::Probing, HealthEvent::Deadline) => (
            HealthState::Probing,
            HealthAction::Stop(HealthFailure::Timeout),
        ),
        (HealthState::Probing, HealthEvent::Changed(false)) => (
            HealthState::Probing,
            HealthAction::Stop(HealthFailure::Unhealthy),
        ),
        (HealthState::Probing, HealthEvent::Changed(true)) => (HealthState::Idle, HealthAction::Wait),
    }
}

/// When the upstream leaves a status request unanswered past its deadline,
/// or answers that it is unhealthy, the health task ends the connection, the
/// supervisor pauses five seconds, and a new connect cycle begins.
pub proof fn law_health_failure_reconnects(interval_ms: u64, answer: Option<bool>)
    requires
        answer != Some(true),
    ensures
        ({
            let e = match answer {
                Some(v) => HealthEvent::Changed(v),
                None => HealthEvent::Deadline,
            };
            health_spec(HealthState::Probing, e, interval_ms).1 is Stop
        }),
        health_spec(HealthState::Probing, HealthEvent::Deadline, interval_ms).1 == HealthAction::Stop(
            HealthFailure::Timeout,
        ),
        supervisor_spec(Supervisor::Connected, SupervisorEvent::ConnectionEnded) == (
            Supervisor::Pausing,
            SupervisorAction::Sleep { ms: RECONNECT_PAUSE_MS },
        ),
        RECONNECT_PAUSE_MS <= 5000,
        supervisor_spec(Supervisor::Pausing, SupervisorEvent::PauseOver) == (
            Supervisor::Connecting,
            SupervisorAction::Connect,
        ),
{
}

/// Every probe of a healthy connection is answered by a change: an idle
/// health task probes on every change, and a healthy answer sends it back to
/// waiting without ending the connection.
pub proof fn law_health_probe_cycle(interval_ms: u64, v: bool)
    ensures
        health_spec(HealthState::Idle, HealthEvent::Changed(v), interval_ms) == (
            HealthState::Probing,
            HealthAction::Probe { deadline_ms: deadline_of(interval_ms) },
        ),
        health_spec(HealthState::Probing, HealthEvent::Changed(true), interval_ms) == (
            HealthState::Idle,
            HealthAction::Wait,
        ),
{
}

/// A cycle makes at most `max_retries + 1` attempts: once the retries are
/// used up, the next failure gives up.
pub proof fn law_backoff_gives_up(b: Backoff, jitter: u64)
    requires
        b.retries <= b.max_retries,
    ensures
        b.retries == b.max_retries ==> b.failure_spec(jitter).1 == Attempt::GiveUp,
        b.retries < b.max_retries ==> b.failure_spec(jitter).0.retries == b.retries + 1
            && b.failure_spec(jitter).0.retries <= b.max_retries,
{
}

/// A connect cycle makes exactly seven attempts when all fail: the sixth
/// failure still retries, the seventh gives up. (Jitter changes the pauses,
/// not the count.)
pub proof fn law_connect_cycle_attempts()
    ensures
        after_failures(connect_policy(), 6).1 is Retry,
        after_failures(connect_policy(), 7).1 == Attempt::GiveUp,
{
    reveal_with_fuel(after_failures, 8);
}

/// The status of an upstream API reply.
#[derive(Debug)]
pub enum ApiData {
    /// The answer to a status request.
    GetStatus { good: bool },
    /// Any other answer; its encoded data travels on.
    Other(Vec<u8>),
}

/// An upstream API reply, echoing the id of the request it answers.
#[derive(Debug)]
pub struct ApiResponse {
    pub echo: u128,
    pub data: ApiData,
}

/// An upstream event, as mapped for the bus.
#[derive(Debug)]
pub struct RawEvent {
    /// The internal event path, when the event has one.
    pub path: Option<String>,
    pub channel: Option<Channel>,
    pub payload: Vec<u8>,
}

/// A message from the upstream: an event or an API reply.
#[derive(Debug)]
pub enum OneBotMessage {
    Event(RawEvent),
    Api(ApiResponse),
}

/// What the receive task does with an upstream message.
#[derive(Debug)]
pub enum Inbound {
    /// Nothing.
    Ignore,
    /// Set the health flag to this value; nothing goes on the bus.
    Health(bool),
    /// Send this packet on the bus.
    Forward(DataPack),
}

/// How an upstream message maps onto the bus, with `id` for a new packet.
pub open spec fn adapt_spec(m: OneBotMessage, bot_id: Seq<char>, id: u128) -> Option<
    (Option<u128>, Option<Seq<char>>, Seq<u8>, Option<Channel>),
> {
    match m {
        OneBotMessage::Api(ApiResponse { echo, data: ApiData::Other(payload) }) => Some(
            (Some(echo), None, payload@, None),
        ),
        OneBotMessage::Api(_) => None,
        OneBotMessage::Event(RawEvent { path: Some(p), channel, payload }) => Some(
            (None, Some(p@), payload@, channel),
        ),
        OneBotMessage::Event(_) => None,
    }
}

/// Maps an upstream message onto the bus: a status answer only sets the
/// health flag; another API reply becomes a response correlated to its echo;
/// an event with a path becomes a request on it; both carry `bot_id`.
pub fn onebot_adaptation(m: OneBotMessage, bot_id: &str, id: u128) -> (r: Inbound)
    ensures
        m matches OneBotMessage::Api(ApiResponse { data: ApiData::GetStatus { good }, .. }) ==> (r
            matches Inbound::Health(v) && v == good),
        adapt_spec(m, bot_id@, id) is None && !(m matches OneBotMessage::Api(
            ApiResponse { data: ApiData::GetStatus { .. }, .. },
        )) ==> r is Ignore,
        adapt_spec(m, bot_id@, id) matches Some(t) ==> (r matches Inbound::Forward(p) && p.id == id
            && p.correlate == t.0 && crate::datapack::opt_view(p.path) == t.1 && p.payload@ == t.2
            && p.channel == t.3 && crate::datapack::opt_view(p.bot_id) == Some(bot_id@)),
{
    match m {
        OneBotMessage::Api(ApiResponse { echo, data }) => match data {
            ApiData::GetStatus { good } => Inbound::Health(good),
            ApiData::Other(payload) => {
                let mut p = DataPack::response(id, payload);
                p.correlate = Some(echo);
                p.bot_id = Some(bot_id.to_owned());
                Inbound::Forward(p)
            },
        },
        OneBotMessage::Event(RawEvent { path, channel, payload }) => match path {
            Some(path) => {
                let mut p = DataPack::request(id, path, payload);
                p.bot_id = Some(bot_id.to_owned());
                p.channel = channel;
                Inbound::Forward(p)
            },
            None => Inbound::Ignore,
        },
    }
}

/// The upstream action that sends a message to a channel of this type.
pub fn send_message_action(ty: ChannelType) -> (r: &'static str)
    ensures
        ty == ChannelType::Private ==> r@ == "send_private_msg"@,
        ty == ChannelType::Group ==> r@ == "send_group_msg"@,
{
    match ty {
        ChannelType::Private => "send_private_msg",
        ChannelType::Group => "send_group_msg",
    }
}

/// The OneBot type and data of an outbound segment.
pub fn segment_kind(seg: &CommonSegment) -> (r: (String, String))
    ensures
        seg matches CommonSegment::Text(t) ==> r.0@ == "text"@ && r.1 == t,
        seg matches CommonSegment::Image(u) ==> r.0@ == "image"@ && r.1 == u,
        seg matches CommonSegment::At(a) ==> r.0@ == "at"@ && r.1 == a,
        seg matches CommonSegment::Unknown(s) ==> r.0 == s.ty && r.1 == s.data,
{
    match seg {
        CommonSegment::Text(t) => ("text".to_owned(), t.clone()),
        CommonSegment::Image(u) => ("image".to_owned(), u.clone()),
        CommonSegment::At(a) => ("at".to_owned(), a.clone()),
        CommonSegment::Unknown(s) => (s.ty.clone(), s.data.clone()),
    }
}

/// The `set_group_ban` parameters of a mute: the member, the group, the
/// seconds; none for a channel outside a group.
pub fn group_ban_params(m: &SetMute) -> (r: Option<(String, String, u64)>)
    ensures
        m.channel.parent_id is None ==> r is None,
        m.channel.parent_id matches Some(g) ==> r == Some((m.channel.id, g, m.duration_secs)),
{
    match &m.channel.parent_id {
        Some(g) => Some((m.channel.id.clone(), g.clone(), m.duration_secs)),
        None => None,
    }
}

/// The `Authorization` header value for an access token.
pub fn bearer(token: &str) -> (r: String)
    ensures
        r@ == "Bearer "@ + token@,
{
    concat("Bearer ", token)
}

/// The characters of a URL's host, as the `url` crate gives it.
pub uninterp spec fn url_host_of(s: Seq<char>) -> Option<Seq<char>>;

/// Relies on `url::Url::parse` and `Url::host_str`: the host of a URL that
/// parses and has one, which depends on the text alone.
#[verifier::external_body]
fn url_host(s: &str) -> (r: Option<String>)
    ensures
        r matches Some(h) ==> url_host_of(s@) == Some(h@),
        r is None ==> url_host_of(s@) is None,
{
    match url::Url::parse(s) {
        Ok(u) => u.host_str().map(str::to_owned),
        Err(_) => None,
    }
}

/// The code of the ASCII lower case of `c`.
pub open spec fn ascii_lower(c: char) -> u32 {
    if 'A' <= c && c <= 'Z' {
        ((c as u32) + 32) as u32
    } else {
        c as u32
    }
}

/// Whether `a` and `b` agree up to ASCII case.
pub open spec fn eq_ignore_ascii_case_spec(a: Seq<char>, b: Seq<char>) -> bool {
    a.len() == b.len() && forall|i: int| 0 <= i < a.len() ==> ascii_lower(a[i]) == ascii_lower(b[i])
}

fn lower(c: char) -> (r: u32)
    ensures
        r == ascii_lower(c),
{
    if 'A' <= c && c <= 'Z' {
        c as u32 + 32
    } else {
        c as u32
    }
}

/// Whether `a` and `b` agree up to ASCII case.
pub fn eq_ignore_ascii_case(a: &str, b: &str) -> (r: bool)
    ensures
        r == eq_ignore_ascii_case_spec(a@, b@),
{
    let n = a.unicode_len();
    if n != b.unicode_len() {
        return false;
    }
    let mut i: usize = 0;
    while i < n
        invariant
            n == a@.len(),
            n == b@.len(),
            i <= n,
            forall|j: int| 0 <= j < i ==> ascii_lower(a@[j]) == ascii_lower(b@[j]),
        decreases n - i,
    {
        if lower(a.get_char(i)) != lower(b.get_char(i)) {
            return false;
        }
        i = i + 1;
    }
    true
}

/// The value of a decimal digit.
pub open spec fn digit_value(c: char) -> nat {
    ((c as u32) - ('0' as u32)) as nat
}

/// Whether `c` is an ASCII decimal digit.
pub open spec fn is_digit(c: char) -> bool {
    '0' <= c && c <= '9'
}

/// The number that the digits `s` spell.
pub open spec fn decimal_value(s: Seq<char>) -> nat
    decreases s.len(),
{
    if s.len() == 0 {
        0
    } else {
        decimal_value(s.drop_last()) * 10 + digit_value(s.last())
    }
}

/// Whether `s` is one octet of a dotted-quad address: one to three digits,
/// no leading zero unless it is `0`, at most 255.
pub open spec fn is_octet(s: Seq<char>) -> bool {
    &&& 1 <= s.len() <= 3
    &&& forall|i: int| 0 <= i < s.len() ==> is_digit(s[i])
    &&& (s.len() > 1 ==> s[0] != '0')
    &&& decimal_value(s) <= 255
}

/// Whether `s` splits at the dots `a < b < c` into four octets.
pub open spec fn quad_split(s: Seq<char>, a: int, b: int, c: int) -> bool {
    &&& 0 < a < b < c < s.len() - 1
    &&& s[a] == '.' && s[b] == '.' && s[c] == '.'
    &&& is_octet(s.subrange(0, a))
    &&& is_octet(s.subrange(a + 1, b))
    &&& is_octet(s.subrange(b + 1, c))
    &&& is_octet(s.subrange(c + 1, s.len() as int))
}

/// The first octet of `s`, when `s` is a dotted-quad IPv4 address: four
/// octets separated by dots.
pub open spec fn ipv4_first_octet(s: Seq<char>) -> Option<nat> {
    if exists|a: int, b: int, c: int| #[trigger] quad_split(s, a, b, c) {
        let (a, b, c) = choose|a: int, b: int, c: int| #[trigger] quad_split(s, a, b, c);
        Some(decimal_value(s.subrange(0, a)))
    } else {
        None
    }
}

/// Whether a URL host names this machine: `localhost` in any case, an
/// IPv4 address in `127.0.0.0/8`, or the IPv6 loopback address, which the
/// `url` crate writes in its canonical bracketed form `[::1]`.
pub open spec fn host_is_loopback_spec(h: Seq<char>) -> bool {
    eq_ignore_ascii_case_spec(h, "localhost"@) || ipv4_first_octet(h) == Some(127nat) || h
        == "[::1]"@
}

/// Reads the octet `s[from..to]`, if it is one.
fn read_octet(s: &Vec<char>, from: usize, to: usize) -> (r: Option<u32>)
    requires
        from <= to <= s@.len(),
    ensures
        r is Some <==> is_octet(s@.subrange(from as int, to as int)),
        r matches Some(v) ==> v as nat == decimal_value(s@.subrange(from as int, to as int)),
{
    let ghost o = s@.subrange(from as int, to as int);
    if to - from < 1 || to - from > 3 {
        return None;
    }
    if to - from > 1 && s[from] == '0' {
        return None;
    }
    let mut v: u32 = 0;
    let mut i: usize = from;
    proof {
        assert(s@.subrange(from as int, from as int) =~= Seq::<char>::empty());
    }
    while i < to
        invariant
            from <= i <= to,
            to <= s@.len(),
            to - from <= 3,
            o == s@.subrange(from as int, to as int),
            forall|j: int| from <= j < i ==> is_digit(s@[j]),
            v as nat == decimal_value(s@.subrange(from as int, i as int)),
            v < 1000,
            i - from <= 3,
            v < (if i - from == 0 { 1nat } else if i - from == 1 { 10nat } else if i - from == 2 {
                100nat
            } else {
                1000nat
            }),
        decreases to - i,
    {
        let c = s[i];
        if !('0' <= c && c <= '9') {
            proof {
                assert(o[i - from] == c);
            }
            return None;
        }
        proof {
            assert(s@.subrange(from as int, i + 1).drop_last() =~= s@.subrange(from as int, i as int));
        }
        v = v * 10 + (c as u32 - '0' as u32);
        i = i + 1;
    }
    proof {
        assert forall|j: int| 0 <= j < o.len() implies is_digit(o[j]) by {
            assert(o[j] == s@[from + j]);
        }
        if o.len() > 1 {
            assert(o[0] == s@[from as int]);
        }
    }
    if v > 255 {
        return None;
    }
    Some(v)
}

fn chars_of(s: &str) -> (r: Vec<char>)
    ensures
        r@ == s@,
{
    let n = s.unicode_len();
    let mut r: Vec<char> = Vec::new();
    let mut i: usize = 0;
    while i < n
        invariant
            n == s@.len(),
            i <= n,
            r@ == s@.subrange(0, i as int),
        decreases n - i,
    {
        r.push(s.get_char(i));
        i = i + 1;
        proof {
            assert(r@ =~= s@.subrange(0, i as int));
        }
    }
    proof {
        assert(r@ =~= s@);
    }
    r
}

/// The first octet of `h`, when it is a dotted-quad IPv4 address.
pub fn ipv4_first(h: &str) -> (r: Option<u32>)
    ensures
        r is Some <==> ipv4_first_octet(h@) is Some,
        r matches Some(v) ==> ipv4_first_octet(h@) == Some(v as nat),
{
    let s = chars_of(h);
    let n = s.len();
    // the positions of the dots
    let mut dots: Vec<usize> = Vec::new();
    let mut i: usize = 0;
    while i < n
        invariant
            s@ == h@,
            n == s@.len(),
            i <= n,
            dots@.len() <= 3,
            forall|k: int| 0 <= k < dots@.len() ==> dots@[k] < i && s@[dots@[k] as int] == '.',
            forall|k: int, l: int| 0 <= k < l < dots@.len() ==> dots@[k] < dots@[l],
            forall|j: int| 0 <= j < i && s@[j] == '.' ==> exists|k: int| 0 <= k < dots@.len() && dots@[k] == j,
        decreases n - i,
    {
        if s[i] == '.' {
            if dots.len() == 3 {
                proof {
                    lemma_no_fourth_dot(s@, dots@, i as int);
                }
                return None;
            }
            let ghost before = dots@;
            dots.push(i);
            proof {
                assert forall|j: int| 0 <= j < i + 1 && s@[j] == '.' implies exists|k: int|
                    0 <= k < dots@.len() && dots@[k] == j by {
                    if j < i {
                        let k = choose|k: int| 0 <= k < before.len() && before[k] == j;
                        assert(dots@[k] == j);
                    } else {
                        assert(dots@[dots@.len() - 1] == j);
                    }
                }
            }
        }
        i = i + 1;
    }
    if dots.len() != 3 {
        proof {
            lemma_three_dots_needed(s@, dots@);
        }
        return None;
    }
    let a = dots[0];
    let b = dots[1];
    let c = dots[2];
    let first = read_octet(&s, 0, a);
    let second = read_octet(&s, a + 1, b);
    let third = read_octet(&s, b + 1, c);
    let fourth = read_octet(&s, c + 1, n);
    proof {
        lemma_dots_unique(s@, dots@);
        if first is Some && second is Some && third is Some && fourth is Some {
            assert(quad_split(s@, a as int, b as int, c as int));
        } else {
            assert(!exists|x: int, y: int, z: int| #[trigger] quad_split(s@, x, y, z)) by {
                if exists|x: int, y: int, z: int| #[trigger] quad_split(s@, x, y, z) {
                    let (x, y, z) = choose|x: int, y: int, z: int| #[trigger] quad_split(s@, x, y, z);
                    assert(x == a && y == b && z == c);
                }
            }
        }
    }
    match (first, second, third, fourth) {
        (Some(v), Some(_), Some(_), Some(_)) => Some(v),
        _ => None,
    }
}

/// With all dots of `s` listed, and three of them, any split of `s` at three
/// dots uses exactly those.
proof fn lemma_dots_unique(s: Seq<char>, dots: Seq<usize>)
    requires
        dots.len() == 3,
        forall|k: int| 0 <= k < 3 ==> dots[k] < s.len() && s[dots[k] as int] == '.',
        dots[0] < dots[1] < dots[2],
        forall|j: int| 0 <= j < s.len() && s[j] == '.' ==> exists|k: int| 0 <= k < 3 && dots[k] == j,
    ensures
        forall|a: int, b: int, c: int|
            #[trigger] quad_split(s, a, b, c) ==> a == dots[0] && b == dots[1] && c == dots[2],
{
    assert forall|a: int, b: int, c: int| #[trigger] quad_split(s, a, b, c) implies a == dots[0]
        && b == dots[1] && c == dots[2] by {
        let ka = choose|k: int| 0 <= k < 3 && dots[k] == a;
        let kb = choose|k: int| 0 <= k < 3 && dots[k] == b;
        let kc = choose|k: int| 0 <= k < 3 && dots[k] == c;
        assert(ka < kb < kc);
    }
}

/// A fourth dot rules out a dotted quad.
proof fn lemma_no_fourth_dot(s: Seq<char>, dots: Seq<usize>, i: int)
    requires
        dots.len() == 3,
        0 <= i < s.len(),
        s[i] == '.',
        forall|k: int| 0 <= k < 3 ==> dots[k] < i && s[dots[k] as int] == '.',
        dots[0] < dots[1] < dots[2],
    ensures
        ipv4_first_octet(s) is None,
{
    if ipv4_first_octet(s) is Some {
        let (a, b, c) = choose|a: int, b: int, c: int| #[trigger] quad_split(s, a, b, c);
        // four dots at positions dots[0] < dots[1] < dots[2] < i: some octet
        // holds a dot
        lemma_octet_has_no_dot(s, a, b, c, dots[0] as int);
        lemma_octet_has_no_dot(s, a, b, c, dots[1] as int);
        lemma_octet_has_no_dot(s, a, b, c, dots[2] as int);
        lemma_octet_has_no_dot(s, a, b, c, i);
    }
}

/// In a split of `s` at three dots into octets, every dot is one of the three.
proof fn lemma_octet_has_no_dot(s: Seq<char>, a: int, b: int, c: int, j: int)
    requires
        quad_split(s, a, b, c),
        0 <= j < s.len(),
        s[j] == '.',
    ensures
        j == a || j == b || j == c,
{
    if j < a {
        assert(s.subrange(0, a)[j] == s[j]);
    } else if a < j < b {
        assert(s.subrange(a + 1, b)[j - a - 1] == s[j]);
    } else if b < j < c {
        assert(s.subrange(b + 1, c)[j - b - 1] == s[j]);
    } else if c < j {
        assert(s.subrange(c + 1, s.len() as int)[j - c - 1] == s[j]);
    }
}

/// Fewer than three dots rule out a dotted quad.
proof fn lemma_three_dots_needed(s: Seq<char>, dots: Seq<usize>)
    requires
        dots.len() < 3,
        forall|j: int| 0 <= j < s.len() && s[j] == '.' ==> exists|k: int| 0 <= k < dots.len() && dots[k] == j,
        forall|k: int, l: int| 0 <= k < l < dots.len() ==> dots[k] < dots[l],
    ensures
        ipv4_first_octet(s) is None,
{
    if ipv4_first_octet(s) is Some {
        let (a, b, c) = choose|a: int, b: int, c: int| #[trigger] quad_split(s, a, b, c);
        let ka = choose|k: int| 0 <= k < dots.len() && dots[k] == a;
        let kb = choose|k: int| 0 <= k < dots.len() && dots[k] == b;
        let kc = choose|k: int| 0 <= k < dots.len() && dots[k] == c;
        assert(ka < kb < kc);
    }
}

/// Whether a URL host names this machine.
pub fn host_is_loopback(h: &str) -> (r: bool)
    ensures
        r == host_is_loopback_spec(h@),
{
    if eq_ignore_ascii_case(h, "localhost") || str_eq(h, "[::1]") {
        return true;
    }
    match ipv4_first(h) {
        Some(v) => v == 127,
        None => false,
    }
}

/// Whether a URL's host names this machine; a URL that does not parse, or
/// has no host, does not.
pub fn is_loopback(url: &str) -> (r: bool)
    ensures
        r == (url_host_of(url@) matches Some(h) && host_is_loopback_spec(h)),
{
    match url_host(url) {
        Some(h) => host_is_loopback(h.as_str()),
        None => false,
    }
}

/// Whether the adapter inlines local files as base64: as configured, else
/// exactly when the upstream is not on this machine.
pub fn convert_file_base64(configured: Option<bool>, ws_url: &str) -> (r: bool)
    ensures
        configured matches Some(v) ==> r == v,
        configured is None ==> r == !(url_host_of(ws_url@) matches Some(h)
            && host_is_loopback_spec(h)),
{
    match configured {
        Some(v) => v,
        None => !is_loopback(ws_url),
    }
}

/// Why a local file could not be inlined.
#[derive(Debug)]
pub enum ProcessError {
    /// Reading the file failed; the message says why.
    IoError(String),
    /// The URL names no local path.
    FilePathError,
}

/// The character of a six-bit value in the standard base64 alphabet.
pub open spec fn b64_char(v: nat) -> char {
    if v < 26 {
        ((v + 65) as u32) as char
    } else if v < 52 {
        ((v + 71) as u32) as char
    } else if v < 62 {
        ((v - 4) as u32) as char
    } else if v == 62 {
        '+'
    } else {
        '/'
    }
}

/// The standard, padded base64 text of some bytes: each three bytes as four
/// characters, a last one or two bytes padded with `=`.
pub open spec fn base64_of(b: Seq<u8>) -> Seq<char>
    decreases b.len(),
{
    if b.len() == 0 {
        Seq::empty()
    } else if b.len() == 1 {
        let n = b[0] as nat * 65536;
        seq![b64_char(n / 262144), b64_char((n / 4096) % 64), '=', '=']
    } else if b.len() == 2 {
        let n = b[0] as nat * 65536 + b[1] as nat * 256;
        seq![b64_char(n / 262144), b64_char((n / 4096) % 64), b64_char((n / 64) % 64), '=']
    } else {
        let n = b[0] as nat * 65536 + b[1] as nat * 256 + b[2] as nat;
        seq![b64_char(n / 262144), b64_char((n / 4096) % 64), b64_char((n / 64) % 64), b64_char(n % 64)]
            + base64_of(b.skip(3))
    }
}

/// Relies on `base64`'s `STANDARD` engine `encode`: the padded standard
/// base64 text of the bytes (RFC 4648).
#[verifier::external_body]
fn base64_encode(b: &[u8]) -> (r: String)
    ensures
        r@ == base64_of(b@),
{
    base64::engine::general_purpose::STANDARD.encode(b)
}

/// A file's bytes as an inline image reference: `base64://` and their
/// base64 text.
pub fn inline_file(bytes: &[u8]) -> (r: String)
    ensures
        r@ == "base64://"@ + base64_of(bytes@),
{
    let b = base64_encode(bytes);
    concat("base64://", b.as_str())
}

} // verus!
