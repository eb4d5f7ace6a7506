//! The host side of the bus: which plugins are live, and the decisions that
//! loading, handshaking, reading and aborting a plugin take.
//!
//! Spawning processes and running the paired read and write tasks is left to
//! the caller; each live plugin is held here with the handles of its two
//! tasks, so that removing it hands both back to be cancelled.
use vstd::prelude::*;

use crate::conf::{BaseConfig, Config};
use crate::datapack::{path_of, DataPack};
use crate::text::str_eq;

verus! {

/// The path of the handshake, both ways.
pub const INIT_PATH: &'static str = "/initialize";

/// The path on which plugins send log records to the host.
pub const LOG_PATH: &'static str = "/log.create";

/// The handles of a plugin's write task and read task.
#[derive(Debug)]
pub struct TaskPair<T> {
    pub write: T,
    pub read: T,
}

/// Whether a plugin is running, as listed to the admin interface.
#[derive(Debug)]
pub struct PluginInfo {
    pub id: String,
    pub running: bool,
}

/// Why a plugin did not complete its handshake.
#[derive(Debug)]
pub enum PluginInitError {
    /// The plugin could not read the config it was given.
    ConfigDeserializeError(String),
    /// The host could not read the plugin's handshake reply.
    InitPackDeserializeError(String),
    /// The stream ended before the handshake reply.
    ConnectionClosed,
    /// The plugin's own init hook refused the config.
    Custom(String),
}

/// Why a plugin could not be loaded.
#[derive(Debug)]
pub enum LoaderError {
    IoError(String),
    PluginConfigDoesNotExist(String),
    ParseValueError(String),
    PathError(String),
    PostError(String),
    InitError(String),
    PluginInitError(PluginInitError),
}

/// What `load` does for a plugin id.
#[derive(Debug, PartialEq, Eq, Structural)]
pub enum LoadStep {
    /// No plugin has this id: the load fails.
    Missing,
    /// The plugin is disabled: nothing is started (`Ok(false)`).
    Disabled,
    /// The plugin is live already: nothing changes (`Ok(true)`).
    AlreadyRunning,
    /// The plugin is to be spawned and handshaken.
    Spawn,
}

/// The step that `load` takes for `id`, given the config entries and the ids
/// of the live plugins.
pub open spec fn load_spec(
    config: Map<Seq<char>, BaseConfig>,
    live: Set<Seq<char>>,
    id: Seq<char>,
) -> LoadStep {
    if !config.contains_key(id) {
        LoadStep::Missing
    } else if !config[id].enable {
        LoadStep::Disabled
    } else if live.contains(id) {
        LoadStep::AlreadyRunning
    } else {
        LoadStep::Spawn
    }
}

/// What the read task does with a packet from a plugin.
#[derive(Debug, PartialEq, Eq, Structural)]
pub enum ReadAction {
    /// A log record: replay it into the host's logger; it is not broadcast.
    Replay,
    /// A packet on the log path whose payload is not a log record: it is
    /// neither replayed nor broadcast.
    Drop,
    /// Anything else: publish it to every plugin.
    Broadcast,
}

/// The action for packet `p`; `decodes_as_log` tells whether its payload
/// reads as a log record.
pub open spec fn read_spec(p: DataPack, decodes_as_log: bool) -> ReadAction {
    if path_of(p) == Some(LOG_PATH@) {
        if decodes_as_log {
            ReadAction::Replay
        } else {
            ReadAction::Drop
        }
    } else {
        ReadAction::Broadcast
    }
}

/// Decides what the read task does with a packet.
pub fn read_action(p: &DataPack, decodes_as_log: bool) -> (r: ReadAction)
    ensures
        r == read_spec(*p, decodes_as_log),
{
    if p.is_on(LOG_PATH) {
        if decodes_as_log {
            ReadAction::Replay
        } else {
            ReadAction::Drop
        }
    } else {
        ReadAction::Broadcast
    }
}

/// Whether a packet read during the handshake is the plugin's reply.
pub fn is_init_reply(p: &DataPack) -> (r: bool)
    ensures
        r == (path_of(*p) == Some(INIT_PATH@)),
{
    p.is_on(INIT_PATH)
}

/// The outcome of `load` once the plugin has replied to the handshake.
pub fn check_init_reply(reply: Result<(), PluginInitError>) -> (r: Result<(), LoaderError>)
    ensures
        reply is Ok <==> r is Ok,
        reply matches Err(e) ==> r == Err::<(), LoaderError>(LoaderError::PluginInitError(e)),
{
    match reply {
        Ok(()) => Ok(()),
        Err(e) => Err(LoaderError::PluginInitError(e)),
    }
}

/// Whether a failed write ends the plugin: an I/O error does, so that both
/// of its tasks stop and it leaves the live map; other errors are skipped.
pub fn write_error_ends(is_io: bool) -> (r: bool)
    ensures
        r == is_io,
{
    is_io
}

/// The live plugins by id, with their task handles.
pub open spec fn live_map<T>(es: Seq<(String, TaskPair<T>)>) -> Map<Seq<char>, TaskPair<T>>
    decreases es.len(),
{
    if es.len() == 0 {
        Map::empty()
    } else {
        live_map(es.drop_last()).insert(es.last().0@, es.last().1)
    }
}

/// No id occurs twice.
pub open spec fn unique_live<T>(es: Seq<(String, TaskPair<T>)>) -> bool {
    forall|i: int, j: int| 0 <= i < j < es.len() ==> es[i].0@ != es[j].0@
}

/// The supervisor's state: the configuration and the live plugins.
pub struct Loader<T> {
    pub config: Config,
    /// The live plugins and their task handles; no id occurs twice.
    pub live: Vec<(String, TaskPair<T>)>,
}

impl<T> Loader<T> {
    /// The live plugins by id.
    pub open spec fn spec_live(&self) -> Map<Seq<char>, TaskPair<T>> {
        live_map(self.live@)
    }

    pub open spec fn wf(&self) -> bool {
        &&& unique_live(self.live@)
        &&& self.config.wf()
    }

    pub fn new(config: Config) -> (r: Self)
        requires
            config.wf(),
        ensures
            r.wf(),
            r.config == config,
            r.spec_live() == Map::<Seq<char>, TaskPair<T>>::empty(),
    {
        let r = Loader { config, live: Vec::new() };
        proof {
            assert(r.live@ =~= Seq::<(String, TaskPair<T>)>::empty());
        }
        r
    }

    fn live_position(&self, id: &str) -> (r: Option<usize>)
        requires
            self.wf(),
        ensures
            r is Some <==> self.spec_live().contains_key(id@),
            r matches Some(i) ==> i < self.live@.len() && self.live@[i as int].0@ == id@,
    {
        proof {
            lemma_live_map_keys(self.live@);
        }
        let mut i: usize = 0;
        while i < self.live.len()
            invariant
                i <= self.live@.len(),
                forall|j: int| 0 <= j < i ==> self.live@[j].0@ != id@,
            decreases self.live@.len() - i,
        {
            if str_eq(self.live[i].0.as_str(), id) {
                proof {
                    lemma_live_map_keys(self.live@);
                    assert(self.live@[i as int].0@ == id@);
                }
                return Some(i);
            }
            i = i + 1;
        }
        None
    }

    /// Whether `id` is live.
    pub fn is_running(&self, id: &str) -> (r: bool)
        requires
            self.wf(),
        ensures
            r == self.spec_live().contains_key(id@),
    {
        self.live_position(id).is_some()
    }

    /// Every configured plugin, in the order of the base file, with whether
    /// it is live.
    pub fn plugins(&self) -> (r: Vec<PluginInfo>)
        requires
            self.wf(),
        ensures
            r@.len() == self.config.spec_entries().len(),
            forall|i: int|
                0 <= i < r@.len() ==> r@[i].id@ == self.config.spec_entries()[i].0@
                    && r@[i].running == self.spec_live().contains_key(
                    self.config.spec_entries()[i].0@,
                ),
    {
        let mut r: Vec<PluginInfo> = Vec::new();
        let mut i: usize = 0;
        while i < self.config.entries.len()
            invariant
                self.wf(),
                i <= self.config.entries@.len(),
                r@.len() == i,
                forall|j: int|
                    0 <= j < i ==> r@[j].id@ == self.config.spec_entries()[j].0@ && r@[j].running
                        == self.spec_live().contains_key(self.config.spec_entries()[j].0@),
            decreases self.config.entries@.len() - i,
        {
            let id = self.config.entries[i].0.clone();
            let running = self.is_running(id.as_str());
            r.push(PluginInfo { id, running });
            i = i + 1;
        }
        r
    }

    /// The step that `load` takes for `id`.
    pub fn begin_load(&self, id: &str) -> (r: LoadStep)
        requires
            self.wf(),
        ensures
            r == load_spec(self.config.spec_map(), self.spec_live().dom(), id@),
    {
        match self.config.get(id) {
            None => LoadStep::Missing,
            Some(c) => if !c.enable {
                LoadStep::Disabled
            } else if self.is_running(id) {
                LoadStep::AlreadyRunning
            } else {
                LoadStep::Spawn
            },
        }
    }

    /// Records `id` as live with the handles of its two tasks, once its
    /// handshake succeeded. An id that is live already keeps its tasks, and
    /// the new handles are handed back to be cancelled.
    pub fn finish_load(&mut self, id: &str, tasks: TaskPair<T>) -> (r: Result<(), TaskPair<T>>)
        requires
            old(self).wf(),
        ensures
            final(self).wf(),
            final(self).config == old(self).config,
            old(self).spec_live().contains_key(id@) <==> r is Err,
            r is Err ==> r == Err::<(), TaskPair<T>>(tasks) && final(self).spec_live() == old(
                self,
            ).spec_live(),
            r is Ok ==> final(self).spec_live() == old(self).spec_live().insert(id@, tasks),
    {
        if self.is_running(id) {
            return Err(tasks);
        }
        proof {
            lemma_live_map_keys(self.live@);
        }
        let ghost before = self.live@;
        self.live.push((id.to_owned(), tasks));
        proof {
            assert(self.live@.drop_last() =~= before);
            assert forall|i: int, j: int| 0 <= i < j < self.live@.len() implies self.live@[i].0@
                != self.live@[j].0@ by {
                if j == self.live@.len() - 1 {
                    assert(self.live@[i] == before[i]);
                }
            }
        }
        Ok(())
    }

    /// Takes `id` out of the live map and hands back the handles of both of
    /// its tasks, for the caller to cancel. Removing an id that is not live
    /// changes nothing.
    pub fn abort(&mut self, id: &str) -> (r: Option<TaskPair<T>>)
        requires
            old(self).wf(),
        ensures
            final(self).wf(),
            final(self).config == old(self).config,
            final(self).spec_live() == old(self).spec_live().remove(id@),
            old(self).spec_live().contains_key(id@) ==> r == Some(old(self).spec_live()[id@]),
            !old(self).spec_live().contains_key(id@) ==> r is None,
    {
        match self.live_position(id) {
            Some(i) => {
                let ghost before = self.live@;
                let (_, t) = self.live.remove(i);
                proof {
                    lemma_live_map_remove(before, i as int);
                    lemma_live_map_at(before, i as int);
                }
                Some(t)
            },
            None => {
                proof {
                    assert(self.spec_live() =~= old(self).spec_live().remove(id@));
                }
                None
            },
        }
    }

    /// Empties the live map and hands back every plugin's task handles.
    pub fn abort_all(&mut self) -> (r: Vec<TaskPair<T>>)
        requires
            old(self).wf(),
        ensures
            final(self).wf(),
            final(self).config == old(self).config,
            final(self).spec_live() == Map::<Seq<char>, TaskPair<T>>::empty(),
            r@.len() == old(self).spec_live().len(),
            forall|i: int| 0 <= i < r@.len() ==> old(self).spec_live().contains_value(#[trigger] r@[i]),
            forall|k: Seq<char>| #[trigger] old(self).spec_live().contains_key(k) ==> exists|i: int|
                0 <= i < r@.len() && r@[i] == old(self).spec_live()[k],
    {
        let ghost before = self.live@;
        proof {
            lemma_live_map_len(before);
        }
        let mut r: Vec<TaskPair<T>> = Vec::new();
        while self.live.len() > 0
            invariant
                unique_live(self.live@),
                self.config == old(self).config,
                self.live@ == before.subrange(0, self.live@.len() as int),
                r@.len() + self.live@.len() == before.len(),
                unique_live(before),
                forall|i: int| 0 <= i < r@.len() ==> live_map(before).contains_value(#[trigger] r@[i]),
                forall|i: int| 0 <= i < r@.len() ==> #[trigger] r@[i] == before[before.len() - 1 - i].1,
            decreases self.live@.len(),
        {
            let ghost k = (self.live@.len() - 1) as int;
            let (_, t) = self.live.pop().unwrap();
            proof {
                lemma_live_map_at(before, k);
                assert(self.live@ =~= before.subrange(0, self.live@.len() as int));
            }
            r.push(t);
        }
        proof {
            assert(self.live@ =~= Seq::<(String, TaskPair<T>)>::empty());
            assert(self.spec_live() =~= Map::<Seq<char>, TaskPair<T>>::empty());
            lemma_live_map_keys(before);
            assert forall|k: Seq<char>| #[trigger] live_map(before).contains_key(k) implies exists|i: int|
                0 <= i < r@.len() && r@[i] == live_map(before)[k] by {
                let j = choose|j: int| 0 <= j < before.len() && before[j].0@ == k;
                lemma_live_map_at(before, j);
                let i = before.len() - 1 - j;
                assert(r@[i] == before[j].1);
            }
        }
        r
    }
}

proof fn lemma_live_map_keys<T>(es: Seq<(String, TaskPair<T>)>)
    ensures
        forall|k: Seq<char>| #[trigger] live_map(es).contains_key(k) <==> exists|i: int|
            0 <= i < es.len() && es[i].0@ == k,
    decreases es.len(),
{
    if es.len() > 0 {
        lemma_live_map_keys(es.drop_last());
        assert forall|k: Seq<char>| #[trigger] live_map(es).contains_key(k) <==> exists|i: int|
            0 <= i < es.len() && es[i].0@ == k by {
            if live_map(es.drop_last()).contains_key(k) {
                let i = choose|i: int| 0 <= i < es.drop_last().len() && es.drop_last()[i].0@ == k;
                assert(es[i] == es.drop_last()[i]);
            }
            if exists|i: int| 0 <= i < es.len() && es[i].0@ == k {
                let i = choose|i: int| 0 <= i < es.len() && es[i].0@ == k;
                if i < es.len() - 1 {
                    assert(es[i] == es.drop_last()[i]);
                }
            }
        }
    }
}

proof fn lemma_live_map_at<T>(es: Seq<(String, TaskPair<T>)>, i: int)
    requires
        unique_live(es),
        0 <= i < es.len(),
    ensures
        live_map(es).contains_key(es[i].0@),
        live_map(es)[es[i].0@] == es[i].1,
    decreases es.len(),
{
    if i < es.len() - 1 {
        assert(es.drop_last()[i] == es[i]);
        lemma_live_map_at(es.drop_last(), i);
        assert(es.last().0@ != es[i].0@);
    }
}

proof fn lemma_live_map_len<T>(es: Seq<(String, TaskPair<T>)>)
    requires
        unique_live(es),
    ensures
        live_map(es).len() == es.len(),
        live_map(es).dom().finite(),
    decreases es.len(),
{
    if es.len() > 0 {
        lemma_live_map_len(es.drop_last());
        lemma_live_map_keys(es.drop_last());
        assert(!live_map(es.drop_last()).contains_key(es.last().0@)) by {
            if live_map(es.drop_last()).contains_key(es.last().0@) {
                let j = choose|j: int| 0 <= j < es.drop_last().len() && es.drop_last()[j].0@ == es.last().0@;
                assert(es[j].0@ == es[es.len() - 1].0@);
            }
        }
    } else {
        assert(live_map(es) =~= Map::<Seq<char>, TaskPair<T>>::empty());
    }
}

proof fn lemma_live_map_remove<T>(es: Seq<(String, TaskPair<T>)>, i: int)
    requires
        unique_live(es),
        0 <= i < es.len(),
    ensures
        unique_live(es.remove(i)),
        live_map(es.remove(i)) == live_map(es).remove(es[i].0@),
    decreases es.len(),
{
    let u = es.remove(i);
    assert forall|a: int, b: int| 0 <= a < b < u.len() implies u[a].0@ != u[b].0@ by {
        let a2 = if a < i { a } else { a + 1 };
        let b2 = if b < i { b } else { b + 1 };
        assert(u[a] == es[a2]);
        assert(u[b] == es[b2]);
    }
    lemma_live_map_keys(es.drop_last());
    if i == es.len() - 1 {
        assert(u =~= es.drop_last());
        assert(!live_map(es.drop_last()).contains_key(es[i].0@)) by {
            if live_map(es.drop_last()).contains_key(es[i].0@) {
                let j = choose|j: int| 0 <= j < es.drop_last().len() && es.drop_last()[j].0@ == es[i].0@;
                assert(es[j].0@ == es[i].0@);
            }
        }
        assert(live_map(u) =~= live_map(es).remove(es[i].0@));
    } else {
        assert(u.drop_last() =~= es.drop_last().remove(i));
        assert(u.last() == es.last());
        assert(es.drop_last()[i] == es[i]);
        lemma_live_map_remove(es.drop_last(), i);
        assert(es.last().0@ != es[i].0@);
        assert(live_map(u) =~= live_map(es).remove(es[i].0@));
    }
}

/// Aborting a plugin that is not live changes nothing: the load that
/// follows takes the same step as a load alone.
pub proof fn law_abort_then_load<T>(
    config: Map<Seq<char>, BaseConfig>,
    live: Map<Seq<char>, TaskPair<T>>,
    id: Seq<char>,
)
    requires
        !live.contains_key(id),
    ensures
        live.remove(id) == live,
        load_spec(config, live.remove(id).dom(), id) == load_spec(config, live.dom(), id),
{
    assert(live.remove(id) =~= live);
}

/// Removing a live plugin takes it out of the live map and hands back the
/// handles of both of its tasks, so that both are cancelled; a plugin whose
/// handshake failed is never added.
pub proof fn law_removal_cancels_both_tasks<T>(
    live: Map<Seq<char>, TaskPair<T>>,
    id: Seq<char>,
    tasks: TaskPair<T>,
)
    requires
        !live.contains_key(id),
    ensures
        live.insert(id, tasks).remove(id) == live,
        live.insert(id, tasks)[id].write == tasks.write,
        live.insert(id, tasks)[id].read == tasks.read,
{
    assert(live.insert(id, tasks).remove(id) =~= live);
}

/// What a read task publishes, in order, of the packets it read (each with
/// whether its payload reads as a log record).
pub open spec fn published(read: Seq<(DataPack, bool)>) -> Seq<DataPack>
    decreases read.len(),
{
    if read.len() == 0 {
        Seq::empty()
    } else {
        let rest = published(read.drop_last());
        if read_spec(read.last().0, read.last().1) == ReadAction::Broadcast {
            rest.push(read.last().0)
        } else {
            rest
        }
    }
}

/// Whether `f` maps the positions of `sub` increasingly to equal packets
/// of `read` that are broadcast.
pub open spec fn embeds(sub: Seq<DataPack>, read: Seq<(DataPack, bool)>, f: spec_fn(int) -> int) -> bool {
    &&& forall|i: int|
        0 <= i < sub.len() ==> 0 <= #[trigger] f(i) < read.len() && sub[i] == read[f(i)].0
            && read_spec(read[f(i)].0, read[f(i)].1) == ReadAction::Broadcast
    &&& forall|i: int, j: int| 0 <= i < j < sub.len() ==> #[trigger] f(i) < #[trigger] f(j)
}

/// A read task publishes the packets of its plugin in the order it read
/// them: what it broadcasts is a subsequence of what it read, made of the
/// packets that are not replayed as log records.
pub proof fn law_read_task_keeps_order(read: Seq<(DataPack, bool)>)
    ensures
        exists|f: spec_fn(int) -> int| embeds(published(read), read, f),
    decreases read.len(),
{
    if read.len() == 0 {
        assert(embeds(published(read), read, |i: int| i));
    } else {
        let init = read.drop_last();
        law_read_task_keeps_order(init);
        let f = choose|f: spec_fn(int) -> int| embeds(published(init), init, f);
        let n = published(init).len();
        let g = |i: int| if i < n { f(i) } else { read.len() - 1 };
        assert forall|i: int| 0 <= i < n implies #[trigger] init[f(i)] == read[f(i)] by {}
        assert(embeds(published(read), read, g));
    }
}

/// A packet on the log path is never broadcast: it is replayed once when
/// its payload is a log record, and dropped otherwise; every other packet is
/// broadcast.
pub proof fn law_log_records_are_not_broadcast(p: DataPack, decodes_as_log: bool)
    ensures
        path_of(p) == Some(LOG_PATH@) ==> read_spec(p, decodes_as_log) != ReadAction::Broadcast,
        path_of(p) == Some(LOG_PATH@) && decodes_as_log ==> read_spec(p, decodes_as_log)
            == ReadAction::Replay,
        path_of(p) != Some(LOG_PATH@) ==> read_spec(p, decodes_as_log) == ReadAction::Broadcast,
{
}

} // verus!
