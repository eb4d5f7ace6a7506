//! The plugin configuration store.
//!
//! A base document maps each plugin id to its entry (executable, enable flag,
//! arguments, optional fragment reference, inline config). A plugin's config
//! may instead live in a fragment file `<ref or id>.toml` in the fragment
//! directory. The base document and the fragments are kept as editable
//! documents, so that comments and layout survive a round trip; each change
//! to an entry goes both to the entry and to the base document.
use vstd::prelude::*;

use crate::text::{concat, str_eq};

verus! {

#[verifier::external_type_specification]
#[verifier::external_body]
pub struct ExDocumentMut(toml_edit::DocumentMut);

#[verifier::external_type_specification]
#[verifier::external_body]
pub struct ExItem(toml_edit::Item);

#[verifier::external_type_specification]
#[verifier::external_body]
pub struct ExTomlError(toml_edit::TomlError);

#[verifier::external_type_specification]
#[verifier::external_body]
pub struct ExTomlValue(toml::Value);

/// The non-empty items of a document's top-level table, by key.
pub uninterp spec fn doc_items(d: toml_edit::DocumentMut) -> Map<Seq<char>, toml_edit::Item>;

/// Whether an item is empty (`Item::is_none`).
pub uninterp spec fn item_is_none(i: toml_edit::Item) -> bool;

/// The item after its key `key` is set to the boolean `v`, when the item is
/// a table or an inline table (`Item::as_table_like_mut`, then
/// `TableLike::insert` of `toml_edit::value(v)`); any other item as it is.
pub uninterp spec fn item_with_flag(i: toml_edit::Item, key: Seq<char>, v: bool) -> toml_edit::Item;

/// Whether a text parses as a TOML document into a value.
pub uninterp spec fn toml_value_parses(s: Seq<char>) -> bool;

/// Whether a text parses as an editable TOML document.
pub uninterp spec fn toml_document_parses(s: Seq<char>) -> bool;

/// Relies on `toml::from_str` into `toml::Value`: it fails exactly on text
/// that is not a TOML document, which depends on the text alone. The error
/// comes back as its message.
#[verifier::external_body]
pub fn parse_value(s: &str) -> (r: Result<toml::Value, String>)
    ensures
        r is Ok <==> toml_value_parses(s@),
{
    toml::from_str::<toml::Value>(s).map_err(|e| e.to_string())
}

/// Relies on `DocumentMut`'s `FromStr`: it fails exactly on text that is not
/// a TOML document, which depends on the text alone.
#[verifier::external_body]
pub fn parse_document(s: &str) -> (r: Result<toml_edit::DocumentMut, toml_edit::TomlError>)
    ensures
        r is Ok <==> toml_document_parses(s@),
{
    s.parse::<toml_edit::DocumentMut>()
}

/// Relies on `Table::get` (through `DocumentMut`'s `Deref`) and `Item`'s
/// `Clone`: a copy of the non-empty item under `k`, if there is one.
#[verifier::external_body]
fn doc_get(d: &toml_edit::DocumentMut, k: &str) -> (r: Option<toml_edit::Item>)
    ensures
        r == (if doc_items(*d).contains_key(k@) {
            Some(doc_items(*d)[k@])
        } else {
            None
        }),
        r matches Some(i) ==> !item_is_none(i),
{
    d.get(k).cloned()
}

/// Relies on `Table::insert`: `k` then holds `i` (unless `i` is empty), and
/// no other key changes.
#[verifier::external_body]
fn doc_insert(d: &mut toml_edit::DocumentMut, k: &str, i: toml_edit::Item)
    ensures
        doc_items(*final(d)).remove(k@) == doc_items(*old(d)).remove(k@),
        doc_items(*final(d)).contains_key(k@) ==> doc_items(*final(d))[k@] == i,
        doc_items(*final(d)).contains_key(k@) == !item_is_none(i),
{
    d.insert(k, i);
}

/// Relies on `Table::remove`: the entry for `k` leaves, and a non-empty item
/// that it held is returned.
#[verifier::external_body]
fn doc_remove(d: &mut toml_edit::DocumentMut, k: &str) -> (r: Option<toml_edit::Item>)
    ensures
        doc_items(*final(d)) == doc_items(*old(d)).remove(k@),
        doc_items(*old(d)).contains_key(k@) ==> r == Some(doc_items(*old(d))[k@]),
{
    d.remove(k)
}

/// Relies on `Table::get_mut` (which skips empty items),
/// `Item::as_table_like_mut` and `TableLike::insert`: the non-empty item
/// under `k`, if any, gets its key `key` set to `v`; it stays non-empty, and
/// no other item changes.
#[verifier::external_body]
fn doc_set_flag(d: &mut toml_edit::DocumentMut, k: &str, key: &str, v: bool)
    ensures
        doc_items(*final(d)).dom() == doc_items(*old(d)).dom(),
        forall|j: Seq<char>|
            j != k@ && #[trigger] doc_items(*old(d)).contains_key(j) ==> doc_items(*final(d))[j]
                == doc_items(*old(d))[j],
        doc_items(*old(d)).contains_key(k@) ==> doc_items(*final(d))[k@] == item_with_flag(
            doc_items(*old(d))[k@],
            key@,
            v,
        ),
{
    if let Some(i) = d.get_mut(k) {
        if let Some(t) = i.as_table_like_mut() {
            t.insert(key, toml_edit::value(v));
        }
    }
}

/// Relies on `Item::as_table_like_mut` and `TableLike::insert`: when the
/// item is a table, its key `key` is set to `v`. An empty item is not a
/// table, so emptiness does not change.
#[verifier::external_body]
fn item_set_flag(i: &mut toml_edit::Item, key: &str, v: bool)
    ensures
        *final(i) == item_with_flag(*old(i), key@, v),
        item_is_none(*final(i)) == item_is_none(*old(i)),
{
    if let Some(t) = i.as_table_like_mut() {
        t.insert(key, toml_edit::value(v));
    }
}

/// Relies on the derived `Clone` of `toml::Value`: an equal value (as vstd
/// takes `String`'s clone to be).
pub assume_specification[ <toml::Value as Clone>::clone ](v: &toml::Value) -> (r: toml::Value)
    ensures
        r == *v,
;

/// Relies on the derived `Clone` of `toml_edit::DocumentMut`: an equal
/// document.
pub assume_specification[ <toml_edit::DocumentMut as Clone>::clone ](
    d: &toml_edit::DocumentMut,
) -> (r: toml_edit::DocumentMut)
    ensures
        r == *d,
;

/// One plugin's entry.
#[derive(Debug)]
pub struct BaseConfig {
    /// The plugin's executable.
    pub path: String,
    pub enable: bool,
    pub args: Vec<String>,
    /// The name of the plugin's fragment file, when it is not the plugin id.
    pub ref_: Option<String>,
    /// The plugin's config, inline or from its fragment.
    pub config: Option<toml::Value>,
    /// The fragment as an editable document, when there is one.
    pub raw_config: Option<toml_edit::DocumentMut>,
}

/// The default of `enable`.
pub fn true_() -> (r: bool)
    ensures
        r,
{
    true
}

fn clone_strings(v: &Vec<String>) -> (r: Vec<String>)
    ensures
        r@ == v@,
{
    let mut r: Vec<String> = Vec::new();
    let mut i: usize = 0;
    while i < v.len()
        invariant
            i <= v@.len(),
            r@ == v@.subrange(0, i as int),
        decreases v@.len() - i,
    {
        r.push(v[i].clone());
        i = i + 1;
        proof {
            assert(r@ =~= v@.subrange(0, i as int));
        }
    }
    proof {
        assert(v@.subrange(0, v@.len() as int) =~= v@);
    }
    r
}

impl BaseConfig {
    /// A copy, disabled; the config values are copied too.
    fn disabled_copy(&self) -> (r: BaseConfig)
        ensures
            r.path == self.path,
            !r.enable,
            r.args@ == self.args@,
            r.ref_ == self.ref_,
            r.config == self.config,
            r.raw_config == self.raw_config,
    {
        BaseConfig {
            path: self.path.clone(),
            enable: false,
            args: clone_strings(&self.args),
            ref_: crate::datapack::clone_opt_string(&self.ref_),
            config: match &self.config {
                Some(v) => Some(v.clone()),
                None => None,
            },
            raw_config: match &self.raw_config {
                Some(d) => Some(d.clone()),
                None => None,
            },
        }
    }
}

/// Why loading or changing the configuration failed.
#[derive(Debug)]
pub enum LoadConfigError {
    /// A file could not be read; the message says why.
    ReadError(String),
    /// A text is not a TOML document; the message says why.
    ParseError(String),
    /// A text is not an editable TOML document.
    TomlError(toml_edit::TomlError),
    /// No plugin has this id.
    PluginNotExists(String),
}

/// The entries by id.
pub open spec fn entries_map(entries: Seq<(String, BaseConfig)>) -> Map<Seq<char>, BaseConfig>
    decreases entries.len(),
{
    if entries.len() == 0 {
        Map::empty()
    } else {
        entries_map(entries.drop_last()).insert(entries.last().0@, entries.last().1)
    }
}

/// The ids of the enabled entries, in order.
pub open spec fn enabled_ids(entries: Seq<(String, BaseConfig)>) -> Seq<String>
    decreases entries.len(),
{
    if entries.len() == 0 {
        Seq::empty()
    } else if entries.last().1.enable {
        enabled_ids(entries.drop_last()).push(entries.last().0)
    } else {
        enabled_ids(entries.drop_last())
    }
}

/// No id occurs twice.
pub open spec fn unique_ids(entries: Seq<(String, BaseConfig)>) -> bool {
    forall|i: int, j: int|
        0 <= i < j < entries.len() ==> entries[i].0@ != entries[j].0@
}

/// Whether `c` is `of` disabled: the same entry with `enable` off.
pub open spec fn is_disabled_copy(c: BaseConfig, of: BaseConfig) -> bool {
    &&& c.path == of.path
    &&& !c.enable
    &&& c.args@ == of.args@
    &&& c.ref_ == of.ref_
    &&& c.config == of.config
    &&& c.raw_config == of.raw_config
}

/// Whether `i` is the first position of id `k` in `entries`.
pub open spec fn first_at(entries: Seq<(String, BaseConfig)>, k: Seq<char>, i: int) -> bool {
    &&& 0 <= i < entries.len()
    &&& entries[i].0@ == k
    &&& forall|j: int| 0 <= j < i ==> entries[j].0@ != k
}

/// The path of `name` in the directory `dir`.
pub open spec fn join_spec(dir: Seq<char>, name: Seq<char>) -> Seq<char> {
    if dir.len() == 0 {
        name
    } else if dir.last() == '/' {
        dir + name
    } else {
        dir + seq!['/'] + name
    }
}

/// The configuration store.
pub struct Config {
    /// The directory of the fragment files.
    pub ref_path: String,
    /// The base document, as edited.
    pub doc: toml_edit::DocumentMut,
    /// The entries, in the order of the base file; no id occurs twice.
    pub entries: Vec<(String, BaseConfig)>,
    /// The base file.
    pub path: String,
}

impl Config {
    /// The entries, in the order of the base file.
    pub open spec fn spec_entries(&self) -> Seq<(String, BaseConfig)> {
        self.entries@
    }

    /// The entries by id.
    pub open spec fn spec_map(&self) -> Map<Seq<char>, BaseConfig> {
        entries_map(self.spec_entries())
    }

    /// No id occurs twice, and the base document holds an item for every
    /// id.
    pub open spec fn wf(&self) -> bool {
        &&& unique_ids(self.spec_entries())
        &&& forall|k: Seq<char>| #[trigger] self.spec_map().contains_key(k) ==> doc_items(
            self.doc,
        ).contains_key(k)
    }

    /// A store over the base document `doc` and its parsed `entries`; an id
    /// that occurs twice keeps its first entry, and an entry whose id the
    /// document holds no item for is left out.
    pub fn new(path: String, ref_path: String, doc: toml_edit::DocumentMut, entries: Vec<(String, BaseConfig)>) -> (r: Config)
        ensures
            r.wf(),
            r.doc == doc,
            r.path == path,
            r.ref_path == ref_path,
            forall|k: Seq<char>| #[trigger] r.spec_map().contains_key(k) <==> (exists|i: int|
                0 <= i < entries@.len() && entries@[i].0@ == k) && doc_items(doc).contains_key(k),
            forall|k: Seq<char>| #[trigger] r.spec_map().contains_key(k) ==> exists|i: int|
                first_at(entries@, k, i) && r.spec_map()[k] == entries@[i].1,
    {
        let mut kept: Vec<(String, BaseConfig)> = Vec::new();
        let mut rest = entries;
        let ghost all = rest@;
        let mut taken: Vec<(String, BaseConfig)> = Vec::new();
        // reverse so that popping yields the entries in order
        while rest.len() > 0
            invariant
                taken@.len() + rest@.len() == all.len(),
                forall|i: int| 0 <= i < taken@.len() ==> taken@[i] == all[all.len() - 1 - i],
                rest@ == all.subrange(0, rest@.len() as int),
            decreases rest@.len(),
        {
            let e = rest.pop().unwrap();
            taken.push(e);
        }
        let mut cfg = Config { ref_path, doc, entries: kept, path };
        proof {
            assert(cfg.spec_entries() =~= Seq::<(String, BaseConfig)>::empty());
            assert(cfg.spec_map() =~= Map::<Seq<char>, BaseConfig>::empty());
        }
        let ghost n = all.len();
        while taken.len() > 0
            invariant
                cfg.wf(),
                cfg.doc == doc,
                cfg.path == path,
                cfg.ref_path == ref_path,
                taken@.len() <= n,
                n == all.len(),
                forall|i: int| 0 <= i < taken@.len() ==> taken@[i] == all[n - 1 - i],
                forall|k: Seq<char>| #[trigger] cfg.spec_map().contains_key(k) <==> (exists|i: int|
                    0 <= i < n - taken@.len() && all[i].0@ == k) && doc_items(doc).contains_key(k),
                forall|k: Seq<char>| #[trigger] cfg.spec_map().contains_key(k) ==> exists|i: int|
                    first_at(all, k, i) && cfg.spec_map()[k] == all[i].1,
            decreases taken@.len(),
        {
            let e = taken.pop().unwrap();
            let ghost m = n - 1 - taken@.len();
            assert(e == all[m]);
            let ghost before = cfg.spec_map();
            let known = cfg.position(e.0.as_str()).is_some();
            let in_doc = doc_get(&cfg.doc, e.0.as_str()).is_some();
            if !known && in_doc {
                let ghost k0 = e.0@;
                let ghost v0 = e.1;
                cfg.push_entry(e);
                proof {
                    assert forall|j: int| 0 <= j < m implies all[j].0@ != k0 by {
                        if all[j].0@ == k0 {
                            assert(exists|i: int| 0 <= i < n - taken@.len() - 1 && all[i].0@ == k0);
                            assert(before.contains_key(k0));
                        }
                    }
                    assert(first_at(all, k0, m));
                    assert forall|k: Seq<char>| #[trigger] cfg.spec_map().contains_key(k) implies exists|i: int|
                        first_at(all, k, i) && cfg.spec_map()[k] == all[i].1 by {
                        if k == k0 {
                            assert(first_at(all, k, m) && cfg.spec_map()[k] == all[m].1);
                        } else {
                            assert(before.contains_key(k));
                        }
                    }
                }
            }
            assert forall|k: Seq<char>| #[trigger] cfg.spec_map().contains_key(k) <==> (exists|i: int|
                0 <= i < n - taken@.len() && all[i].0@ == k) && doc_items(doc).contains_key(k) by {
                if exists|i: int| 0 <= i < n - taken@.len() && all[i].0@ == k {
                    let i = choose|i: int| 0 <= i < n - taken@.len() && all[i].0@ == k;
                    if i < m {
                        assert(exists|i2: int| 0 <= i2 < n - taken@.len() - 1 && all[i2].0@ == k);
                    }
                }
                if cfg.spec_map().contains_key(k) && k != all[m].0@ {
                    let i = choose|i: int| 0 <= i < n - taken@.len() - 1 && all[i].0@ == k;
                    assert(0 <= i < n - taken@.len() && all[i].0@ == k);
                }
            }
        }
        cfg
    }

    fn push_entry(&mut self, e: (String, BaseConfig))
        requires
            old(self).wf(),
            !old(self).spec_map().contains_key(e.0@),
            doc_items(old(self).doc).contains_key(e.0@),
        ensures
            final(self).wf(),
            final(self).doc == old(self).doc,
            final(self).path == old(self).path,
            final(self).ref_path == old(self).ref_path,
            final(self).spec_map() == old(self).spec_map().insert(e.0@, e.1),
    {
        proof {
            lemma_entries_map_keys(self.entries@);
        }
        let ghost k = e.0@;
        self.entries.push(e);
        proof {
            assert(self.entries@.drop_last() =~= old(self).entries@);
            assert forall|i: int, j: int| 0 <= i < j < self.entries@.len() implies self.entries@[i].0@
                != self.entries@[j].0@ by {
                if j == self.entries@.len() - 1 {
                    assert(old(self).entries@[i] == self.entries@[i]);
                }
            }
        }
    }

    /// The position of the entry for `id`.
    fn position(&self, id: &str) -> (r: Option<usize>)
        requires
            self.wf(),
        ensures
            r is Some <==> self.spec_map().contains_key(id@),
            r matches Some(i) ==> i < self.entries@.len() && self.entries@[i as int].0@ == id@
                && self.spec_map()[id@] == self.entries@[i as int].1,
    {
        proof {
            lemma_entries_map_keys(self.entries@);
        }
        let mut i: usize = 0;
        while i < self.entries.len()
            invariant
                unique_ids(self.entries@),
                i <= self.entries@.len(),
                forall|j: int| 0 <= j < i ==> self.entries@[j].0@ != id@,
            decreases self.entries@.len() - i,
        {
            if str_eq(self.entries[i].0.as_str(), id) {
                proof {
                    lemma_entries_map_at(self.entries@, i as int);
                }
                return Some(i);
            }
            i = i + 1;
        }
        None
    }

    /// The ids, in the order of the base file.
    pub fn keys(&self) -> (r: Vec<String>)
        ensures
            r@ == self.spec_entries().map_values(|e: (String, BaseConfig)| e.0),
    {
        let mut r: Vec<String> = Vec::new();
        let mut i: usize = 0;
        while i < self.entries.len()
            invariant
                i <= self.entries@.len(),
                r@ == self.entries@.subrange(0, i as int).map_values(
                    |e: (String, BaseConfig)| e.0,
                ),
            decreases self.entries@.len() - i,
        {
            r.push(self.entries[i].0.clone());
            i = i + 1;
            proof {
                assert(r@ =~= self.entries@.subrange(0, i as int).map_values(
                    |e: (String, BaseConfig)| e.0,
                ));
            }
        }
        proof {
            assert(self.entries@.subrange(0, self.entries@.len() as int) =~= self.entries@);
        }
        r
    }

    /// The ids of the enabled plugins, in the order of the base file.
    pub fn keys_enabled(&self) -> (r: Vec<String>)
        ensures
            r@ == enabled_ids(self.spec_entries()),
    {
        let mut r: Vec<String> = Vec::new();
        let mut i: usize = 0;
        proof {
            assert(self.entries@.subrange(0, 0) =~= Seq::<(String, BaseConfig)>::empty());
        }
        while i < self.entries.len()
            invariant
                i <= self.entries@.len(),
                r@ == enabled_ids(self.entries@.subrange(0, i as int)),
            decreases self.entries@.len() - i,
        {
            proof {
                let s = self.entries@.subrange(0, i as int + 1);
                assert(s.drop_last() =~= self.entries@.subrange(0, i as int));
            }
            if self.entries[i].1.enable {
                r.push(self.entries[i].0.clone());
            }
            i = i + 1;
        }
        proof {
            assert(self.entries@.subrange(0, self.entries@.len() as int) =~= self.entries@);
        }
        r
    }

    /// The entry for `key`.
    pub fn get(&self, key: &str) -> (r: Option<&BaseConfig>)
        requires
            self.wf(),
        ensures
            r is Some <==> self.spec_map().contains_key(key@),
            r matches Some(c) ==> *c == self.spec_map()[key@],
    {
        match self.position(key) {
            Some(i) => Some(&self.entries[i].1),
            None => None,
        }
    }

    /// Replaces the config of `id` by the TOML text `config`, both as a value
    /// and as an editable fragment.
    pub fn set_config(&mut self, id: &str, config: &str) -> (r: Result<(), LoadConfigError>)
        requires
            old(self).wf(),
        ensures
            final(self).wf(),
            final(self).doc == old(self).doc,
            !toml_value_parses(config@) ==> r matches Err(LoadConfigError::ParseError(_)),
            toml_value_parses(config@) && !toml_document_parses(config@) ==> r matches Err(
                LoadConfigError::TomlError(_),
            ),
            toml_value_parses(config@) && toml_document_parses(config@) && !old(
                self,
            ).spec_map().contains_key(id@) ==> (r matches Err(LoadConfigError::PluginNotExists(s))
                && s@ == id@),
            r is Ok <==> toml_value_parses(config@) && toml_document_parses(config@) && old(
                self,
            ).spec_map().contains_key(id@),
            r is Ok ==> final(self).spec_map().dom() == old(self).spec_map().dom(),
            r is Ok ==> (forall|k: Seq<char>| k != id@ && #[trigger] old(self).spec_map().contains_key(k)
                ==> final(self).spec_map()[k] == old(self).spec_map()[k]),
            r is Ok ==> final(self).spec_map()[id@].config is Some,
            r is Ok ==> final(self).spec_map()[id@].raw_config is Some,
            r is Ok ==> final(self).spec_map()[id@].enable == old(self).spec_map()[id@].enable,
            r is Err ==> final(self).spec_map() == old(self).spec_map(),
    {
        let value = match parse_value(config) {
            Ok(v) => v,
            Err(e) => return Err(LoadConfigError::ParseError(e)),
        };
        let doc = match parse_document(config) {
            Ok(d) => d,
            Err(e) => return Err(LoadConfigError::TomlError(e)),
        };
        match self.position(id) {
            Some(i) => {
                self.update_at(i, Some(value), Some(doc));
                Ok(())
            },
            None => Err(LoadConfigError::PluginNotExists(id.to_owned())),
        }
    }

    /// Sets the config of the entry at `i`.
    fn update_at(&mut self, i: usize, value: Option<toml::Value>, doc: Option<toml_edit::DocumentMut>)
        requires
            old(self).wf(),
            i < old(self).entries@.len(),
        ensures
            final(self).wf(),
            final(self).doc == old(self).doc,
            final(self).path == old(self).path,
            final(self).ref_path == old(self).ref_path,
            final(self).spec_map() == old(self).spec_map().insert(
                old(self).entries@[i as int].0@,
                BaseConfig { config: value, raw_config: doc, ..old(self).entries@[i as int].1 },
            ),
    {
        let ghost before = self.entries@;
        let (k, mut e) = self.entries.remove(i);
        e.config = value;
        e.raw_config = doc;
        self.entries.insert(i, (k, e));
        proof {
            lemma_entries_map_update(before, i as int, self.entries@[i as int]);
            assert(self.entries@ =~= before.update(i as int, self.entries@[i as int]));
            lemma_entries_map_at(before, i as int);
            assert forall|k: Seq<char>| #[trigger] self.spec_map().contains_key(k) implies doc_items(
                self.doc,
            ).contains_key(k) by {
                assert(old(self).spec_map().contains_key(k));
            }
        }
    }

    /// Takes the fragment read from disk for the entry `id`: its value and
    /// its editable document replace the inline config.
    pub fn attach_fragment(&mut self, id: &str, value: toml::Value, doc: toml_edit::DocumentMut) -> (r: bool)
        requires
            old(self).wf(),
        ensures
            final(self).wf(),
            final(self).doc == old(self).doc,
            r == old(self).spec_map().contains_key(id@),
            final(self).spec_map().dom() == old(self).spec_map().dom(),
            forall|k: Seq<char>| k != id@ && #[trigger] old(self).spec_map().contains_key(k)
                ==> final(self).spec_map()[k] == old(self).spec_map()[k],
            r ==> final(self).spec_map()[id@] == (BaseConfig {
                config: Some(value),
                raw_config: Some(doc),
                ..old(self).spec_map()[id@]
            }),
    {
        match self.position(id) {
            Some(i) => {
                self.update_at(i, Some(value), Some(doc));
                true
            },
            None => false,
        }
    }

    /// Enables or disables `id`, in its entry and in the base document.
    pub fn set_enable(&mut self, id: &str, enable: bool)
        requires
            old(self).wf(),
        ensures
            final(self).wf(),
            final(self).spec_map().dom() == old(self).spec_map().dom(),
            old(self).spec_map().contains_key(id@) ==> final(self).spec_map()[id@] == (BaseConfig {
                enable,
                ..old(self).spec_map()[id@]
            }),
            forall|k: Seq<char>| k != id@ && #[trigger] old(self).spec_map().contains_key(k)
                ==> final(self).spec_map()[k] == old(self).spec_map()[k],
            !old(self).spec_map().contains_key(id@) ==> final(self).doc == old(self).doc,
            old(self).spec_map().contains_key(id@) ==> doc_items(final(self).doc)[id@]
                == item_with_flag(doc_items(old(self).doc)[id@], "enable"@, enable),
            doc_items(final(self).doc).dom() == doc_items(old(self).doc).dom(),
            forall|j: Seq<char>|
                j != id@ && #[trigger] doc_items(old(self).doc).contains_key(j) ==> doc_items(
                    final(self).doc,
                )[j] == doc_items(old(self).doc)[j],
    {
        match self.position(id) {
            Some(i) => {
                let ghost before = self.entries@;
                let (k, mut e) = self.entries.remove(i);
                e.enable = enable;
                self.entries.insert(i, (k, e));
                proof {
                    lemma_entries_map_update(before, i as int, self.entries@[i as int]);
                    assert(self.entries@ =~= before.update(i as int, self.entries@[i as int]));
                }
                doc_set_flag(&mut self.doc, id, "enable", enable);
            },
            None => {},
        }
    }

    /// Removes `id` from the entries and from the base document; returns
    /// both when both were there.
    pub fn remove(&mut self, id: &str) -> (r: Option<(BaseConfig, toml_edit::Item)>)
        requires
            old(self).wf(),
        ensures
            final(self).wf(),
            final(self).spec_map() == old(self).spec_map().remove(id@),
            doc_items(final(self).doc) == doc_items(old(self).doc).remove(id@),
            !old(self).spec_map().contains_key(id@) ==> r is None,
            old(self).spec_map().contains_key(id@) ==> r == Some(
                (old(self).spec_map()[id@], doc_items(old(self).doc)[id@]),
            ),
    {
        let base = match self.position(id) {
            Some(i) => {
                let ghost before = self.entries@;
                let (_, e) = self.entries.remove(i);
                proof {
                    lemma_entries_map_remove(before, i as int);
                }
                Some(e)
            },
            None => {
                proof {
                    assert(self.spec_map() =~= old(self).spec_map().remove(id@));
                }
                None
            },
        };
        let doc = doc_remove(&mut self.doc, id);
        match (base, doc) {
            (Some(b), Some(d)) => Some((b, d)),
            _ => None,
        }
    }

    /// Copies the entry `id` to `to`, disabled, in the entries and in the base
    /// document. Does nothing when there is no plugin `id`.
    pub fn duplicate(&mut self, id: &str, to: &str)
        requires
            old(self).wf(),
        ensures
            final(self).wf(),
            !old(self).spec_map().contains_key(id@) ==> final(self).spec_map() == old(
                self,
            ).spec_map() && final(self).doc == old(self).doc,
            old(self).spec_map().contains_key(id@) ==> final(self).spec_map().contains_key(to@)
                && is_disabled_copy(final(self).spec_map()[to@], old(self).spec_map()[id@]),
            final(self).spec_map().remove(to@) == old(self).spec_map().remove(to@),
            old(self).spec_map().contains_key(id@) ==> doc_items(final(self).doc) == doc_items(
                old(self).doc,
            ).insert(to@, item_with_flag(doc_items(old(self).doc)[id@], "enable"@, false)),
    {
        let config = match self.get(id) {
            Some(c) => c.disabled_copy(),
            None => return,
        };
        let mut item = match doc_get(&self.doc, id) {
            Some(i) => i,
            None => return,
        };
        item_set_flag(&mut item, "enable", false);
        let ghost flagged = item;
        let ghost before = self.spec_map();
        match self.position(to) {
            Some(i) => {
                let ghost es = self.entries@;
                self.entries.remove(i);
                proof {
                    lemma_entries_map_remove(es, i as int);
                }
            },
            None => {},
        }
        let ghost mid = self.spec_map();
        assert(mid == before.remove(to@));
        let ghost d0 = doc_items(self.doc);
        assert(!item_is_none(flagged));
        doc_insert(&mut self.doc, to, item);
        proof {
            let d1 = doc_items(self.doc);
            assert(d1.contains_key(to@));
            assert(d1[to@] == flagged);
            assert(d1.remove(to@) == d0.remove(to@));
            assert forall|k: Seq<char>| k != to@ implies (d1.contains_key(k) == d0.contains_key(k)
                && (d0.contains_key(k) ==> d1[k] == d0[k])) by {
                assert(d1.remove(to@).contains_key(k) == d1.contains_key(k));
                assert(d0.remove(to@).contains_key(k) == d0.contains_key(k));
                if d0.contains_key(k) {
                    assert(d1.remove(to@)[k] == d1[k]);
                    assert(d0.remove(to@)[k] == d0[k]);
                }
            }
            assert(d1 =~= d0.insert(to@, flagged));
            assert forall|k: Seq<char>| #[trigger] self.spec_map().contains_key(k) implies doc_items(
                self.doc,
            ).contains_key(k) by {
                assert(d0.contains_key(k));
            }
        }
        self.push_entry((to.to_owned(), config));
        proof {
            assert(self.spec_map().remove(to@) =~= before.remove(to@));
        }
    }

    /// The fragment file of `id`: `<ref or id>.toml` in the fragment
    /// directory.
    pub fn fragment_file(&self, id: &str) -> (r: String)
        requires
            self.wf(),
        ensures
            r@ == join_spec(
                self.ref_path@,
                (if self.spec_map().contains_key(id@) && self.spec_map()[id@].ref_ is Some {
                    self.spec_map()[id@].ref_->0@
                } else {
                    id@
                }) + ".toml"@,
            ),
    {
        let name = match self.get(id) {
            Some(BaseConfig { ref_: Some(r), .. }) => concat(r.as_str(), ".toml"),
            _ => concat(id, ".toml"),
        };
        join_path(self.ref_path.as_str(), name.as_str())
    }
}

/// `name` in the directory `dir`.
pub fn join_path(dir: &str, name: &str) -> (r: String)
    ensures
        r@ == join_spec(dir@, name@),
{
    let n = dir.unicode_len();
    if n == 0 {
        return name.to_owned();
    }
    let last = dir.get_char(n - 1);
    let mut s = dir.to_owned();
    if last != '/' {
        s.append("/");
        proof {
            reveal_strlit("/");
            assert("/"@ =~= seq!['/']);
        }
    }
    s.append(name);
    s
}

proof fn lemma_entries_map_keys(es: Seq<(String, BaseConfig)>)
    ensures
        forall|k: Seq<char>| #[trigger] entries_map(es).contains_key(k) <==> exists|i: int|
            0 <= i < es.len() && es[i].0@ == k,
    decreases es.len(),
{
    if es.len() > 0 {
        lemma_entries_map_keys(es.drop_last());
        assert forall|k: Seq<char>| #[trigger] entries_map(es).contains_key(k) <==> exists|i: int|
            0 <= i < es.len() && es[i].0@ == k by {
            if entries_map(es.drop_last()).contains_key(k) {
                let i = choose|i: int| 0 <= i < es.drop_last().len() && es.drop_last()[i].0@ == k;
                assert(es[i] == es.drop_last()[i]);
            }
            if exists|i: int| 0 <= i < es.len() && es[i].0@ == k {
                let i = choose|i: int| 0 <= i < es.len() && es[i].0@ == k;
                if i < es.len() - 1 {
                    assert(es[i] == es.drop_last()[i]);
                }
            }
        }
    }
}

proof fn lemma_entries_map_at(es: Seq<(String, BaseConfig)>, i: int)
    requires
        unique_ids(es),
        0 <= i < es.len(),
    ensures
        entries_map(es).contains_key(es[i].0@),
        entries_map(es)[es[i].0@] == es[i].1,
    decreases es.len(),
{
    if i < es.len() - 1 {
        assert(es.drop_last()[i] == es[i]);
        lemma_entries_map_at(es.drop_last(), i);
        assert(es.last().0@ != es[i].0@);
    }
}

proof fn lemma_entries_map_update(es: Seq<(String, BaseConfig)>, i: int, e: (String, BaseConfig))
    requires
        unique_ids(es),
        0 <= i < es.len(),
        e.0@ == es[i].0@,
    ensures
        unique_ids(es.update(i, e)),
        entries_map(es.update(i, e)) == entries_map(es).insert(e.0@, e.1),
    decreases es.len(),
{
    let u = es.update(i, e);
    assert forall|a: int, b: int| 0 <= a < b < u.len() implies u[a].0@ != u[b].0@ by {
        assert(es[a].0@ != es[b].0@);
    }
    if i == es.len() - 1 {
        assert(u.drop_last() =~= es.drop_last());
        lemma_entries_map_keys(es.drop_last());
        assert(!entries_map(es.drop_last()).contains_key(e.0@)) by {
            if entries_map(es.drop_last()).contains_key(e.0@) {
                let j = choose|j: int| 0 <= j < es.drop_last().len() && es.drop_last()[j].0@ == e.0@;
                assert(es[j].0@ == es[i].0@);
            }
        }
        assert(entries_map(u) =~= entries_map(es).insert(e.0@, e.1));
    } else {
        assert(u.drop_last() =~= es.drop_last().update(i, e));
        lemma_entries_map_update(es.drop_last(), i, e);
        assert(es.last().0@ != e.0@);
        assert(entries_map(u) =~= entries_map(es).insert(e.0@, e.1));
    }
}

proof fn lemma_entries_map_remove(es: Seq<(String, BaseConfig)>, i: int)
    requires
        unique_ids(es),
        0 <= i < es.len(),
    ensures
        unique_ids(es.remove(i)),
        entries_map(es.remove(i)) == entries_map(es).remove(es[i].0@),
    decreases es.len(),
{
    let u = es.remove(i);
    assert forall|a: int, b: int| 0 <= a < b < u.len() implies u[a].0@ != u[b].0@ by {
        let a2 = if a < i { a } else { a + 1 };
        let b2 = if b < i { b } else { b + 1 };
        assert(u[a] == es[a2]);
        assert(u[b] == es[b2]);
    }
    lemma_entries_map_keys(es.drop_last());
    if i == es.len() - 1 {
        assert(u =~= es.drop_last());
        assert(!entries_map(es.drop_last()).contains_key(es[i].0@)) by {
            if entries_map(es.drop_last()).contains_key(es[i].0@) {
                let j = choose|j: int| 0 <= j < es.drop_last().len() && es.drop_last()[j].0@ == es[i].0@;
                assert(es[j].0@ == es[i].0@);
            }
        }
        assert(entries_map(u) =~= entries_map(es).remove(es[i].0@));
    } else {
        assert(u.drop_last() =~= es.drop_last().remove(i));
        assert(u.last() == es.last());
        assert(es.drop_last()[i] == es[i]);
        lemma_entries_map_remove(es.drop_last(), i);
        assert(es.last().0@ != es[i].0@);
        assert(entries_map(u) =~= entries_map(es).remove(es[i].0@));
    }
}

/// Copying plugin `a` to a new id `b` and then removing `b` leaves the
/// entries and the base document as they were, and hands back the copy: `a`
/// disabled, and `a`'s document item with `enable` off.
pub proof fn law_duplicate_then_remove(
    before: Map<Seq<char>, BaseConfig>,
    doc_before: Map<Seq<char>, toml_edit::Item>,
    duplicated: Map<Seq<char>, BaseConfig>,
    doc_duplicated: Map<Seq<char>, toml_edit::Item>,
    a: Seq<char>,
    b: Seq<char>,
)
    requires
        a != b,
        before.contains_key(a),
        !before.contains_key(b),
        !doc_before.contains_key(b),
        duplicated.contains_key(b),
        is_disabled_copy(duplicated[b], before[a]),
        duplicated.remove(b) == before.remove(b),
        doc_duplicated == doc_before.insert(b, item_with_flag(doc_before[a], "enable"@, false)),
    ensures
        duplicated.remove(b) == before,
        doc_duplicated.remove(b) == doc_before,
        is_disabled_copy(duplicated[b], before[a]),
        doc_duplicated[b] == item_with_flag(doc_before[a], "enable"@, false),
        duplicated.remove(b)[a] == before[a],
{
    assert(before.remove(b) =~= before);
    assert(doc_duplicated.remove(b) =~= doc_before);
}

} // verus!
