//! The Recent Files list: most recent first, without duplicates, at most
//! twenty entries.
//!
//! Reading the configuration file, canonicalizing paths and writing the file
//! are done by the application; the library decides what the list becomes.

use vstd::prelude::*;
use crate::i18n::{Language, LocalizedMessage};
use crate::pathname::{is_markdown_file, spec_is_markdown, views};
use crate::text::cat3;

verus! {

/// The most entries the list ever holds.
pub const DEFAULT_CAPACITY: usize = 20;

/// `s` without any element equal to `x`, order kept.
pub open spec fn remove_all(s: Seq<Seq<char>>, x: Seq<char>) -> Seq<Seq<char>>
    decreases s.len(),
{
    if s.len() == 0 {
        s
    } else if s.last() == x {
        remove_all(s.drop_last(), x)
    } else {
        remove_all(s.drop_last(), x).push(s.last())
    }
}

/// No element occurs twice.
pub open spec fn distinct(s: Seq<Seq<char>>) -> bool {
    forall|i: int, j: int| 0 <= i < j < s.len() ==> s[i] != s[j]
}

/// Every path of `s` names a Markdown file.
pub open spec fn all_markdown(s: Seq<Seq<char>>) -> bool {
    forall|k: int| 0 <= k < s.len() ==> spec_is_markdown(#[trigger] s[k])
}

/// The list after recording `p`: `p` first, then the former entries other
/// than `p`, cut to `capacity` entries.
pub open spec fn spec_insert_front(s: Seq<Seq<char>>, p: Seq<char>, capacity: nat) -> Seq<Seq<char>> {
    let r = seq![p] + remove_all(s, p);
    if r.len() <= capacity {
        r
    } else {
        r.subrange(0, capacity as int)
    }
}

/// One entry of a stored list, with its canonical form when the application
/// could resolve one.
#[derive(Clone, Debug, PartialEq, Eq)]
pub struct RecentEntry {
    pub path: String,
    pub canonical: Option<String>,
}

/// The entries kept from a stored list, scanning left to right: Markdown
/// paths only (judged on the stored path), replaced by their canonical form
/// when `canonicalize` holds and one is known, without duplicates, until
/// `capacity` entries are kept.
pub open spec fn normalize_acc(
    entries: Seq<RecentEntry>,
    acc: Seq<Seq<char>>,
    canonicalize: bool,
    capacity: nat,
) -> Seq<Seq<char>>
    decreases entries.len(),
{
    if entries.len() == 0 || acc.len() >= capacity {
        acc
    } else {
        let e = entries[0];
        let rest = entries.drop_first();
        if !spec_is_markdown(e.path@) {
            normalize_acc(rest, acc, canonicalize, capacity)
        } else {
            let stored = if canonicalize && e.canonical is Some {
                e.canonical->0@
            } else {
                e.path@
            };
            if acc.contains(stored) {
                normalize_acc(rest, acc, canonicalize, capacity)
            } else {
                normalize_acc(rest, acc.push(stored), canonicalize, capacity)
            }
        }
    }
}

pub open spec fn spec_normalize(entries: Seq<RecentEntry>, canonicalize: bool, capacity: nat) -> Seq<Seq<char>> {
    normalize_acc(entries, Seq::empty(), canonicalize, capacity)
}

proof fn lemma_loads_back_from(entries: Seq<RecentEntry>, paths: Seq<Seq<char>>, capacity: nat, i: int)
    requires
        0 <= i <= paths.len(),
        entries.len() == paths.len(),
        paths.len() <= capacity,
        distinct(paths),
        forall|k: int| 0 <= k < paths.len() ==> spec_is_markdown(#[trigger] paths[k]),
        forall|k: int| 0 <= k < entries.len() ==> (#[trigger] entries[k]).path@ == paths[k]
            && (entries[k].canonical matches Some(c) ==> c@ == paths[k]),
    ensures
        normalize_acc(entries.skip(i), paths.take(i), true, capacity) == paths,
    decreases paths.len() - i,
{
    if i == paths.len() {
        assert(entries.skip(i) =~= Seq::<RecentEntry>::empty());
        assert(paths.take(i) =~= paths);
    } else {
        let e = entries.skip(i);
        assert(e[0] == entries[i]);
        assert(e.drop_first() =~= entries.skip(i + 1));
        assert(paths.take(i).push(paths[i]) =~= paths.take(i + 1));
        if paths.take(i).contains(paths[i]) {
            let k = choose|k: int| 0 <= k < i && paths.take(i)[k] == paths[i];
            assert(paths[k] == paths[i]);
        }
        assert(spec_is_markdown(paths[i]));
        lemma_loads_back_from(entries, paths, capacity, i + 1);
    }
}

/// A list written out and read back is the same list: reading entries
/// that are the stored paths, in order, each still its own canonical form
/// (or with none known), gives those paths again, provided they are
/// distinct Markdown paths and fit the capacity.
pub proof fn law_stored_list_loads_back(entries: Seq<RecentEntry>, paths: Seq<Seq<char>>, capacity: nat)
    requires
        entries.len() == paths.len(),
        paths.len() <= capacity,
        distinct(paths),
        forall|k: int| 0 <= k < paths.len() ==> spec_is_markdown(#[trigger] paths[k]),
        forall|k: int| 0 <= k < entries.len() ==> (#[trigger] entries[k]).path@ == paths[k]
            && (entries[k].canonical matches Some(c) ==> c@ == paths[k]),
    ensures
        spec_normalize(entries, true, capacity) == paths,
{
    lemma_loads_back_from(entries, paths, capacity, 0);
    assert(entries.skip(0) =~= entries);
    assert(paths.take(0) =~= Seq::<Seq<char>>::empty());
}

pub proof fn lemma_normalize_acc(entries: Seq<RecentEntry>, acc: Seq<Seq<char>>, canonicalize: bool, capacity: nat)
    requires
        distinct(acc),
        acc.len() <= capacity,
    ensures
        distinct(normalize_acc(entries, acc, canonicalize, capacity)),
        normalize_acc(entries, acc, canonicalize, capacity).len() <= capacity,
    decreases entries.len(),
{
    if entries.len() == 0 || acc.len() >= capacity {
    } else {
        let e = entries[0];
        let rest = entries.drop_first();
        if !spec_is_markdown(e.path@) {
            lemma_normalize_acc(rest, acc, canonicalize, capacity);
        } else {
            let stored = if canonicalize && e.canonical is Some {
                e.canonical->0@
            } else {
                e.path@
            };
            if acc.contains(stored) {
                lemma_normalize_acc(rest, acc, canonicalize, capacity);
            } else {
                assert(distinct(acc.push(stored))) by {
                    assert forall|i: int, j: int| 0 <= i < j < acc.push(stored).len() implies acc.push(stored)[i] != acc.push(stored)[j] by {
                        if j == acc.len() {
                            assert(acc[i] == acc.push(stored)[i]);
                        }
                    }
                }
                lemma_normalize_acc(rest, acc.push(stored), canonicalize, capacity);
            }
        }
    }
}

/// `r` is what writing back the list `v` gave: nothing to write for a list
/// without a file, else what `store` returned for that file and the list's
/// paths.
pub open spec fn written_back<S>(v: RecentFilesView, store: S, r: Result<(), RecentFilesError>) -> bool where
    S: FnOnce(&String, &Vec<String>) -> Result<(), RecentFilesError>,
{
    match v.config_path {
        None => r is Ok,
        Some(cp) => exists|c: String, ps: Vec<String>| c@ == cp && views(ps@) == v.paths
            && store.ensures((&c, &ps), r),
    }
}

/// The abstract state of a Recent Files list.
pub ghost struct RecentFilesView {
    pub paths: Seq<Seq<char>>,
    pub config_path: Option<Seq<char>>,
    pub capacity: nat,
    pub canonicalize_on_record: bool,
}

/// The Recent Files list.
#[derive(Debug, PartialEq, Eq)]
pub struct RecentFiles {
    paths: Vec<String>,
    config_path: Option<String>,
    capacity: usize,
    canonicalize_on_record: bool,
}

/// Why recording, removing, loading or saving Recent Files failed.
#[derive(Clone, Debug, PartialEq, Eq)]
pub enum RecentFilesError {
    NotMarkdown { path: String },
    ConfigUnavailable,
    Read { path: String },
    Parse { path: String },
    CreateDir { path: String },
    Write { path: String },
    Canonicalize { path: String },
    Serialize { path: String },
}

/// What the application found when it read the configuration file.
#[derive(Clone, Debug, PartialEq, Eq)]
pub enum ConfigRead {
    /// The file does not exist.
    Missing,
    /// The file exists but could not be read.
    Unreadable,
    /// The file was read but is not a valid configuration.
    Malformed,
    /// The stored list, each entry with its canonical form if one was found.
    Entries(Vec<RecentEntry>),
}

impl View for RecentFiles {
    type V = RecentFilesView;

    closed spec fn view(&self) -> RecentFilesView {
        RecentFilesView {
            paths: views(self.paths@),
            config_path: match self.config_path {
                Some(p) => Some(p@),
                None => None,
            },
            capacity: self.capacity as nat,
            canonicalize_on_record: self.canonicalize_on_record,
        }
    }
}

impl RecentFiles {
    #[verifier::type_invariant]
    closed spec fn well_formed(self) -> bool {
        &&& self.capacity <= DEFAULT_CAPACITY
        &&& self.paths@.len() <= self.capacity
        &&& distinct(views(self.paths@))
        &&& !self.canonicalize_on_record ==> all_markdown(views(self.paths@))
    }

    /// A list built from `entries`: see `normalize_acc`; the capacity is cut
    /// to twenty.
    fn new(
        entries: Vec<RecentEntry>,
        config_path: Option<String>,
        capacity: usize,
        canonicalize_on_record: bool,
    ) -> (r: RecentFiles)
        ensures
            r@.capacity == if capacity <= DEFAULT_CAPACITY { capacity as nat } else { DEFAULT_CAPACITY as nat },
            r@.paths == spec_normalize(entries@, canonicalize_on_record, r@.capacity),
            r@.config_path == (match config_path { Some(p) => Some(p@), None => None }),
            r@.canonicalize_on_record == canonicalize_on_record,
            (canonicalize_on_record ==> canonical_forms_markdown(entries@)) ==> list_promise(r@),
    {
        let capacity = if capacity <= DEFAULT_CAPACITY { capacity } else { DEFAULT_CAPACITY };
        let mut paths: Vec<String> = Vec::new();
        let mut i: usize = 0;
        proof {
            lemma_normalize_acc(entries@, Seq::empty(), canonicalize_on_record, capacity as nat);
        }
        assert(views(paths@) =~= Seq::<Seq<char>>::empty());
        assert(entries@.subrange(0, entries@.len() as int) =~= entries@);
        while i < entries.len() && paths.len() < capacity
            invariant
                0 <= i <= entries@.len(),
                capacity <= DEFAULT_CAPACITY,
                paths@.len() <= capacity,
                distinct(views(paths@)),
                !canonicalize_on_record ==> all_markdown(views(paths@)),
                normalize_acc(entries@.subrange(i as int, entries@.len() as int), views(paths@), canonicalize_on_record, capacity as nat)
                    == spec_normalize(entries@, canonicalize_on_record, capacity as nat),
            decreases entries@.len() - i,
        {
            let ghost rest = entries@.subrange(i as int, entries@.len() as int);
            assert(rest.drop_first() =~= entries@.subrange(i + 1, entries@.len() as int));
            assert(rest[0] == entries@[i as int]);
            let entry = &entries[i];
            if is_markdown_file(&entry.path) {
                let stored = if canonicalize_on_record && entry.canonical.is_some() {
                    entry.canonical.as_ref().unwrap().clone()
                } else {
                    entry.path.clone()
                };
                if !contains_path(&paths, &stored) {
                    let ghost before = paths@;
                    paths.push(stored);
                    assert(views(paths@) =~= views(before).push(stored@));
                    proof {
                        lemma_normalize_acc(rest.drop_first(), views(paths@), canonicalize_on_record, capacity as nat);
                        if !canonicalize_on_record {
                            assert forall|k: int| 0 <= k < views(paths@).len() implies spec_is_markdown(#[trigger] views(paths@)[k]) by {
                                if k < views(before).len() {
                                    assert(views(before)[k] == views(paths@)[k]);
                                }
                            }
                        }
                        assert forall|a: int, b: int| 0 <= a < b < views(paths@).len() implies views(paths@)[a] != views(paths@)[b] by {
                            if b == views(before).len() {
                                assert(views(before)[a] == views(paths@)[a]);
                                assert(views(before).contains(views(before)[a]));
                            } else {
                                assert(views(before)[a] == views(paths@)[a]);
                                assert(views(before)[b] == views(paths@)[b]);
                            }
                        }
                    }
                }
            }
            i = i + 1;
        }
        let r = RecentFiles { paths, config_path, capacity, canonicalize_on_record };
        proof {
            use_type_invariant(&r);
            if canonicalize_on_record ==> canonical_forms_markdown(entries@) {
                law_loaded_lists_are_markdown(entries@, canonicalize_on_record, capacity as nat);
            }
        }
        r
    }
}

impl RecentFiles {
    /// An empty list kept only in memory (nothing is canonicalized or
    /// saved).
    pub fn in_memory(capacity: usize) -> (r: RecentFiles)
        ensures
            r@.paths == Seq::<Seq<char>>::empty(),
            r@.config_path is None,
            r@.capacity == if capacity <= DEFAULT_CAPACITY { capacity as nat } else { DEFAULT_CAPACITY as nat },
            !r@.canonicalize_on_record,
            list_promise(r@),
    {
        Self::in_memory_with_paths(capacity, Vec::new())
    }

    fn in_memory_with_paths(capacity: usize, entries: Vec<RecentEntry>) -> (r: RecentFiles)
        ensures
            r@.capacity == if capacity <= DEFAULT_CAPACITY { capacity as nat } else { DEFAULT_CAPACITY as nat },
            r@.paths == spec_normalize(entries@, false, r@.capacity),
            r@.config_path is None,
            !r@.canonicalize_on_record,
            list_promise(r@),
    {
        Self::new(entries, None, capacity, false)
    }

    /// The list stored at `config_path`, from what the application `read`
    /// there: a missing file gives an empty list, an unreadable one
    /// `Read`, a malformed one `Parse`. Entries are kept as `normalize_acc`
    /// says, canonical forms preferred.
    pub fn load_from_path(config_path: String, capacity: usize, read: ConfigRead) -> (r: Result<RecentFiles, RecentFilesError>)
        ensures
            match read {
                ConfigRead::Missing => r matches Ok(f) && f@.paths == Seq::<Seq<char>>::empty(),
                ConfigRead::Unreadable => r matches Err(RecentFilesError::Read { path }) && path@ == config_path@,
                ConfigRead::Malformed => r matches Err(RecentFilesError::Parse { path }) && path@ == config_path@,
                ConfigRead::Entries(e) => r matches Ok(f) && f@.paths == spec_normalize(e@, true, f@.capacity),
            },
            r matches Ok(f) ==> {
                &&& f@.config_path == Some(config_path@)
                &&& f@.capacity == if capacity <= DEFAULT_CAPACITY { capacity as nat } else { DEFAULT_CAPACITY as nat }
                &&& f@.canonicalize_on_record
            },
            read_promise(read) ==> (r matches Ok(f) ==> list_promise(f@)),
    {
        match read {
            ConfigRead::Missing => {
                let r = Self::new(Vec::new(), Some(config_path), capacity, true);
                proof {
                    reveal_with_fuel(normalize_acc, 1);
                }
                Ok(r)
            },
            ConfigRead::Unreadable => Err(RecentFilesError::Read { path: config_path }),
            ConfigRead::Malformed => Err(RecentFilesError::Parse { path: config_path }),
            ConfigRead::Entries(entries) => Ok(Self::new(entries, Some(config_path), capacity, true)),
        }
    }

    /// Like `load_from_path`, but a failure gives an empty list bound to
    /// `config_path` together with the error.
    pub fn load_from_path_with_notification(config_path: String, capacity: usize, read: ConfigRead) -> (r: (RecentFiles, Option<RecentFilesError>))
        ensures
            r.0@.config_path == Some(config_path@),
            r.0@.capacity == if capacity <= DEFAULT_CAPACITY { capacity as nat } else { DEFAULT_CAPACITY as nat },
            r.0@.canonicalize_on_record,
            match read {
                ConfigRead::Missing => r.0@.paths == Seq::<Seq<char>>::empty() && r.1 is None,
                ConfigRead::Unreadable => r.1 matches Some(RecentFilesError::Read { path }) && path@ == config_path@
                    && r.0@.paths == Seq::<Seq<char>>::empty(),
                ConfigRead::Malformed => r.1 matches Some(RecentFilesError::Parse { path }) && path@ == config_path@
                    && r.0@.paths == Seq::<Seq<char>>::empty(),
                ConfigRead::Entries(e) => r.0@.paths == spec_normalize(e@, true, r.0@.capacity) && r.1 is None,
            },
            read_promise(read) ==> list_promise(r.0@),
    {
        let fallback_path = config_path.clone();
        match Self::load_from_path(config_path, capacity, read) {
            Ok(recent) => (recent, None),
            Err(error) => {
                let r = Self::new(Vec::new(), Some(fallback_path), capacity, true);
                proof {
                    reveal_with_fuel(normalize_acc, 1);
                }
                (r, Some(error))
            },
        }
    }

    /// The list at startup: with no configuration directory, an empty
    /// in-memory list of twenty and `ConfigUnavailable`; otherwise
    /// `load_from_path_with_notification` with a capacity of twenty.
    pub fn load(config: Option<(String, ConfigRead)>) -> (r: (RecentFiles, Option<RecentFilesError>))
        ensures
            r.0@.capacity == DEFAULT_CAPACITY,
            match config {
                None => r.0@.paths == Seq::<Seq<char>>::empty() && r.0@.config_path is None
                    && !r.0@.canonicalize_on_record && r.1 == Some(RecentFilesError::ConfigUnavailable),
                Some((p, read)) => r.0@.config_path == Some(p@) && r.0@.canonicalize_on_record && match read {
                    ConfigRead::Missing => r.0@.paths == Seq::<Seq<char>>::empty() && r.1 is None,
                    ConfigRead::Unreadable => r.1 matches Some(RecentFilesError::Read { path }) && path@ == p@
                        && r.0@.paths == Seq::<Seq<char>>::empty(),
                    ConfigRead::Malformed => r.1 matches Some(RecentFilesError::Parse { path }) && path@ == p@
                        && r.0@.paths == Seq::<Seq<char>>::empty(),
                    ConfigRead::Entries(e) => r.0@.paths == spec_normalize(e@, true, DEFAULT_CAPACITY as nat) && r.1 is None,
                },
            },
            (config matches Some((_, read)) ==> read_promise(read)) ==> list_promise(r.0@),
    {
        match config {
            None => {
                let r = Self::in_memory_with_paths(DEFAULT_CAPACITY, Vec::new());
                proof {
                    reveal_with_fuel(normalize_acc, 1);
                }
                (r, Some(RecentFilesError::ConfigUnavailable))
            },
            Some((config_path, read)) => Self::load_from_path_with_notification(config_path, DEFAULT_CAPACITY, read),
        }
    }

    /// Hands the list to `store` to be written to its file, when it has
    /// one; a list kept only in memory has nothing to write.
    fn write_back<S>(&self, store: S) -> (r: Result<(), RecentFilesError>) where
        S: FnOnce(&String, &Vec<String>) -> Result<(), RecentFilesError>,

        requires
            forall|c: String, ps: Vec<String>| store.requires((&c, &ps)),
        ensures
            written_back(self@, store, r),
    {
        match &self.config_path {
            None => Ok(()),
            Some(c) => store(c, &self.paths),
        }
    }

    /// Records a successful open or save of `path`. `canonical` is the
    /// canonical form the application resolved for it (`None` when that
    /// failed); it is used only when the list canonicalizes. A non-Markdown
    /// path gives `NotMarkdown`, a missing canonical form `Canonicalize`,
    /// both leaving the list unchanged; otherwise the stored path moves to
    /// the front (see `spec_insert_front`) and the list is written back
    /// with `store`, whose error is returned.
    pub fn record_success<S>(&mut self, path: String, canonical: Option<String>, store: S) -> (r: Result<(), RecentFilesError>) where
        S: FnOnce(&String, &Vec<String>) -> Result<(), RecentFilesError>,

        requires
            forall|c: String, ps: Vec<String>| store.requires((&c, &ps)),
        ensures
            !spec_is_markdown(path@) ==> (r matches Err(RecentFilesError::NotMarkdown { path: p }) && p@ == path@
                && final(self)@ == old(self)@),
            spec_is_markdown(path@) && old(self)@.canonicalize_on_record && canonical is None ==>
                (r matches Err(RecentFilesError::Canonicalize { path: p }) && p@ == path@ && final(self)@ == old(self)@),
            spec_is_markdown(path@) && !(old(self)@.canonicalize_on_record && canonical is None) ==> {
                let stored = if old(self)@.canonicalize_on_record { canonical->0@ } else { path@ };
                &&& written_back(final(self)@, store, r)
                &&& final(self)@.paths == spec_insert_front(old(self)@.paths, stored, old(self)@.capacity)
                &&& final(self)@.capacity == old(self)@.capacity
                &&& final(self)@.config_path == old(self)@.config_path
                &&& final(self)@.canonicalize_on_record == old(self)@.canonicalize_on_record
            },
            all_markdown(old(self)@.paths) && (old(self)@.canonicalize_on_record && canonical is Some
                ==> spec_is_markdown(canonical->0@)) ==> all_markdown(final(self)@.paths),
            list_promise(old(self)@) && (old(self)@.canonicalize_on_record && canonical is Some
                ==> spec_is_markdown(canonical->0@)) ==> list_promise(final(self)@),
    {
        if !is_markdown_file(&path) {
            return Err(RecentFilesError::NotMarkdown { path });
        }
        let stored = if self.canonicalize_on_record {
            match canonical {
                Some(c) => c,
                None => {
                    return Err(RecentFilesError::Canonicalize { path });
                },
            }
        } else {
            path
        };
        let ghost before = self@.paths;
        let ghost sv = stored@;
        self.insert_path(stored);
        proof {
            if all_markdown(before) && spec_is_markdown(sv) {
                lemma_insert_front_markdown(before, sv, self@.capacity);
            }
            use_type_invariant(&*self);
        }
        self.write_back(store)
    }

    /// Removes every entry equal to `path`, compared in the form the
    /// application resolved (`comparison`) when the list canonicalizes;
    /// `None` there gives `Canonicalize` and leaves the list unchanged.
    /// Otherwise the list is written back with `store`, whose error is
    /// returned.
    pub fn remove<S>(&mut self, path: &str, comparison: Option<String>, store: S) -> (r: Result<(), RecentFilesError>) where
        S: FnOnce(&String, &Vec<String>) -> Result<(), RecentFilesError>,

        requires
            forall|c: String, ps: Vec<String>| store.requires((&c, &ps)),
        ensures
            old(self)@.canonicalize_on_record && comparison is None ==>
                (r matches Err(RecentFilesError::Canonicalize { path: p }) && p@ == path@ && final(self)@ == old(self)@),
            !(old(self)@.canonicalize_on_record && comparison is None) ==> {
                let target = if old(self)@.canonicalize_on_record { comparison->0@ } else { path@ };
                &&& written_back(final(self)@, store, r)
                &&& final(self)@.paths == remove_all(old(self)@.paths, target)
                &&& final(self)@.capacity == old(self)@.capacity
                &&& final(self)@.config_path == old(self)@.config_path
                &&& final(self)@.canonicalize_on_record == old(self)@.canonicalize_on_record
            },
            all_markdown(old(self)@.paths) ==> all_markdown(final(self)@.paths),
            list_promise(old(self)@) ==> list_promise(final(self)@),
    {
        let target = if self.canonicalize_on_record {
            match comparison {
                Some(c) => c,
                None => {
                    return Err(RecentFilesError::Canonicalize { path: path.to_string() });
                },
            }
        } else {
            path.to_string()
        };
        proof {
            use_type_invariant(&*self);
        }
        let kept = without_path(&self.paths, &target);
        proof {
            lemma_remove_all_distinct(views(self.paths@), target@);
            if !self.canonicalize_on_record || all_markdown(views(self.paths@)) {
                lemma_subset_markdown(views(self.paths@), views(kept@));
            }
        }
        self.paths = kept;
        proof {
            use_type_invariant(&*self);
        }
        self.write_back(store)
    }

    /// The entries, most recent first. They never repeat, and there are at
    /// most `capacity` of them, itself at most twenty.
    pub fn paths(&self) -> (r: &[String])
        ensures
            views(r@) == self@.paths,
            distinct(self@.paths),
            !self@.canonicalize_on_record ==> all_markdown(self@.paths),
            self@.paths.len() <= self@.capacity <= DEFAULT_CAPACITY,
    {
        proof {
            use_type_invariant(self);
        }
        self.paths.as_slice()
    }

    /// Where the list is written, if anywhere.
    pub fn config_path(&self) -> (r: Option<&String>)
        ensures
            match r {
                Some(p) => self@.config_path == Some(p@),
                None => self@.config_path is None,
            },
    {
        self.config_path.as_ref()
    }

    fn insert_path(&mut self, path: String)
        requires
            !old(self)@.canonicalize_on_record ==> spec_is_markdown(path@),
        ensures
            final(self)@.paths == spec_insert_front(old(self)@.paths, path@, old(self)@.capacity),
            final(self)@.capacity == old(self)@.capacity,
            final(self)@.config_path == old(self)@.config_path,
            final(self)@.canonicalize_on_record == old(self)@.canonicalize_on_record,
    {
        proof {
            use_type_invariant(&*self);
        }
        let ghost old_paths = views(self.paths@);
        let mut kept = without_path(&self.paths, &path);
        proof {
            lemma_remove_all_distinct(old_paths, path@);
        }
        let ghost pv = path@;
        kept.insert(0, path);
        assert(views(kept@) =~= seq![pv] + remove_all(old_paths, pv));
        proof {
            lemma_remove_all_distinct(old_paths, pv);
            assert forall|i: int, j: int| 0 <= i < j < views(kept@).len() implies views(kept@)[i] != views(kept@)[j] by {
                if i == 0 {
                    assert(remove_all(old_paths, pv)[j - 1] == views(kept@)[j]);
                }
            }
        }
        let cap = self.capacity;
        kept.truncate(cap);
        proof {
            if views(kept@).len() > 0 {
            }
        }
        assert(views(kept@) =~= spec_insert_front(old_paths, pv, cap as nat));
        proof {
            if !self.canonicalize_on_record {
                assert forall|k: int| 0 <= k < views(kept@).len() implies spec_is_markdown(#[trigger] views(kept@)[k]) by {
                    if k > 0 {
                        let y = views(kept@)[k];
                        assert(remove_all(old_paths, pv)[k - 1] == y);
                        assert(remove_all(old_paths, pv).contains(y));
                        assert(old_paths.contains(y));
                    }
                }
            }
        }
        self.paths = kept;
    }
}

/// Recording a path puts it first, keeps the list free of repeats and
/// within its capacity, and brings in no path but the recorded one: for
/// every repeat-free list and every positive capacity.
pub proof fn law_record_moves_to_front(s: Seq<Seq<char>>, p: Seq<char>, capacity: nat)
    requires
        distinct(s),
        capacity > 0,
    ensures
        spec_insert_front(s, p, capacity).len() > 0,
        spec_insert_front(s, p, capacity)[0] == p,
        distinct(spec_insert_front(s, p, capacity)),
        spec_insert_front(s, p, capacity).len() <= capacity,
        forall|q: Seq<char>| spec_insert_front(s, p, capacity).contains(q) ==> q == p || s.contains(q),
{
    lemma_remove_all_distinct(s, p);
    let rest = remove_all(s, p);
    let full = seq![p] + rest;
    assert(full[0] == p);
    assert forall|i: int, j: int| 0 <= i < j < full.len() implies full[i] != full[j] by {
        if i == 0 {
            assert(full[j] == rest[j - 1]);
            assert(rest.contains(rest[j - 1]));
        } else {
            assert(full[i] == rest[i - 1] && full[j] == rest[j - 1]);
        }
    }
    let r = spec_insert_front(s, p, capacity);
    assert forall|q: Seq<char>| r.contains(q) implies q == p || s.contains(q) by {
        let k = choose|k: int| 0 <= k < r.len() && r[k] == q;
        assert(full[k] == q);
        if k > 0 {
            assert(rest[k - 1] == q);
            assert(rest.contains(q));
        }
    }
    assert forall|i: int, j: int| 0 <= i < j < r.len() implies r[i] != r[j] by {
        assert(r[i] == full[i] && r[j] == full[j]);
    }
}

/// `s` without `x` keeps its distinctness, drops `x`, and is no longer.
/// Recording a Markdown path in an all-Markdown list keeps it all
/// Markdown.
proof fn lemma_insert_front_markdown(s: Seq<Seq<char>>, p: Seq<char>, capacity: nat)
    requires
        all_markdown(s),
        spec_is_markdown(p),
    ensures
        all_markdown(spec_insert_front(s, p, capacity)),
{
    lemma_remove_all_distinct(s, p);
    let r = seq![p] + remove_all(s, p);
    assert forall|k: int| 0 <= k < r.len() implies spec_is_markdown(#[trigger] r[k]) by {
        if k > 0 {
            assert(r[k] == remove_all(s, p)[k - 1]);
            assert(remove_all(s, p).contains(r[k]));
            assert(s.contains(r[k]));
        }
    }
    let f = spec_insert_front(s, p, capacity);
    assert forall|k: int| 0 <= k < f.len() implies spec_is_markdown(#[trigger] f[k]) by {
        assert(f[k] == r[k]);
    }
}

/// What the design promises of the list at every moment: no path twice, at
/// most its capacity (itself at most twenty), and Markdown paths only.
pub open spec fn list_promise(v: RecentFilesView) -> bool {
    &&& distinct(v.paths)
    &&& v.paths.len() <= v.capacity <= DEFAULT_CAPACITY
    &&& all_markdown(v.paths)
}

/// Every Markdown entry the application read keeps a Markdown name once
/// resolved.
pub open spec fn read_promise(read: ConfigRead) -> bool {
    read matches ConfigRead::Entries(e) ==> canonical_forms_markdown(e@)
}

/// The Markdown entries of a stored list keep a Markdown name when
/// resolved: their canonical form, when one is known, is Markdown too.
pub open spec fn canonical_forms_markdown(entries: Seq<RecentEntry>) -> bool {
    forall|k: int| 0 <= k < entries.len() && spec_is_markdown((#[trigger] entries[k]).path@)
        && entries[k].canonical is Some ==> spec_is_markdown(entries[k].canonical->0@)
}

proof fn lemma_normalize_markdown(entries: Seq<RecentEntry>, acc: Seq<Seq<char>>, canonicalize: bool, capacity: nat)
    requires
        all_markdown(acc),
        canonicalize ==> canonical_forms_markdown(entries),
    ensures
        all_markdown(normalize_acc(entries, acc, canonicalize, capacity)),
    decreases entries.len(),
{
    if entries.len() == 0 || acc.len() >= capacity {
    } else {
        let e = entries[0];
        let rest = entries.drop_first();
        assert forall|k: int| 0 <= k < rest.len() && spec_is_markdown((#[trigger] rest[k]).path@)
            && rest[k].canonical is Some implies (canonicalize ==> spec_is_markdown(rest[k].canonical->0@)) by {
            assert(rest[k] == entries[k + 1]);
        }
        if spec_is_markdown(e.path@) {
            let stored = if canonicalize && e.canonical is Some { e.canonical->0@ } else { e.path@ };
            assert(spec_is_markdown(stored));
            if !acc.contains(stored) {
                assert forall|k: int| 0 <= k < acc.push(stored).len() implies spec_is_markdown(#[trigger] acc.push(stored)[k]) by {
                    if k < acc.len() {
                        assert(acc.push(stored)[k] == acc[k]);
                    }
                }
                lemma_normalize_markdown(rest, acc.push(stored), canonicalize, capacity);
            } else {
                lemma_normalize_markdown(rest, acc, canonicalize, capacity);
            }
        } else {
            lemma_normalize_markdown(rest, acc, canonicalize, capacity);
        }
    }
}

/// A list read from stored entries holds only Markdown paths, when every
/// Markdown entry keeps a Markdown name once resolved (no entry is a link
/// to a file of another kind).
pub proof fn law_loaded_lists_are_markdown(entries: Seq<RecentEntry>, canonicalize: bool, capacity: nat)
    requires
        canonicalize ==> canonical_forms_markdown(entries),
    ensures
        all_markdown(spec_normalize(entries, canonicalize, capacity)),
{
    lemma_normalize_markdown(entries, Seq::empty(), canonicalize, capacity);
}

/// A sequence whose elements all occur in an all-Markdown one is all
/// Markdown.
proof fn lemma_subset_markdown(s: Seq<Seq<char>>, t: Seq<Seq<char>>)
    requires
        all_markdown(s),
        forall|y: Seq<char>| t.contains(y) ==> s.contains(y),
    ensures
        all_markdown(t),
{
    assert forall|k: int| 0 <= k < t.len() implies spec_is_markdown(#[trigger] t[k]) by {
        assert(t.contains(t[k]));
    }
}

pub proof fn lemma_remove_all_distinct(s: Seq<Seq<char>>, x: Seq<char>)
    ensures
        distinct(s) ==> distinct(remove_all(s, x)),
        !remove_all(s, x).contains(x),
        remove_all(s, x).len() <= s.len(),
        forall|y: Seq<char>| remove_all(s, x).contains(y) ==> s.contains(y),
    decreases s.len(),
{
    if s.len() > 0 {
        let r = remove_all(s.drop_last(), x);
        lemma_remove_all_distinct(s.drop_last(), x);
        assert forall|y: Seq<char>| remove_all(s, x).contains(y) implies s.contains(y) by {
            if s.last() != x && y == s.last() {
                assert(s[s.len() - 1] == y);
            } else {
                let k = choose|k: int| 0 <= k < remove_all(s, x).len() && remove_all(s, x)[k] == y;
                if s.last() != x && k == r.len() {
                    assert(s[s.len() - 1] == y);
                } else {
                    if s.last() != x {
                        assert(remove_all(s, x)[k] == r[k]);
                    }
                    assert(r[k] == y);
                    assert(r.contains(y));
                    assert(s.drop_last().contains(y));
                    let m = choose|m: int| 0 <= m < s.drop_last().len() && s.drop_last()[m] == y;
                    assert(s[m] == y);
                }
            }
        }
        if distinct(s) && s.last() != x {
            assert(!r.contains(s.last())) by {
                if r.contains(s.last()) {
                    assert(s.drop_last().contains(s.last()));
                    let m = choose|m: int| 0 <= m < s.drop_last().len() && s.drop_last()[m] == s.last();
                    assert(s[m] == s[s.len() - 1]);
                }
            }
            assert(distinct(s.drop_last())) by {
                assert forall|i: int, j: int| 0 <= i < j < s.drop_last().len() implies s.drop_last()[i] != s.drop_last()[j] by {
                    assert(s.drop_last()[i] == s[i] && s.drop_last()[j] == s[j]);
                }
            }
            assert forall|i: int, j: int| 0 <= i < j < r.push(s.last()).len() implies r.push(s.last())[i] != r.push(s.last())[j] by {
                if j == r.len() {
                    assert(r.contains(r[i]));
                    assert(r.push(s.last())[i] == r[i]);
                } else {
                    assert(r.push(s.last())[i] == r[i]);
                    assert(r.push(s.last())[j] == r[j]);
                }
            }
        }
        if distinct(s) && s.last() == x {
            assert(distinct(s.drop_last())) by {
                assert forall|i: int, j: int| 0 <= i < j < s.drop_last().len() implies s.drop_last()[i] != s.drop_last()[j] by {
                    assert(s.drop_last()[i] == s[i] && s.drop_last()[j] == s[j]);
                }
            }
        }
        if remove_all(s, x).contains(x) {
            let k = choose|k: int| 0 <= k < remove_all(s, x).len() && remove_all(s, x)[k] == x;
            if s.last() != x && k == r.len() {
            } else {
                assert(r[k] == x);
                assert(r.contains(x));
            }
        }
    }
}

/// The entries of `paths` other than `p`, order kept.
fn without_path(paths: &Vec<String>, p: &String) -> (r: Vec<String>)
    ensures
        views(r@) == remove_all(views(paths@), p@),
{
    let mut r: Vec<String> = Vec::new();
    let mut i: usize = 0;
    assert(views(r@) =~= remove_all(views(paths@).subrange(0, 0), p@));
    while i < paths.len()
        invariant
            0 <= i <= paths@.len(),
            views(r@) == remove_all(views(paths@).subrange(0, i as int), p@),
        decreases paths@.len() - i,
    {
        let ghost before = views(r@);
        assert(views(paths@).subrange(0, i + 1).drop_last() =~= views(paths@).subrange(0, i as int));
        assert(views(paths@).subrange(0, i + 1).last() == paths@[i as int]@);
        if paths[i] != *p {
            r.push(paths[i].clone());
            assert(views(r@) =~= before.push(paths@[i as int]@));
        }
        i = i + 1;
    }
    assert(views(paths@).subrange(0, paths@.len() as int) =~= views(paths@));
    r
}

/// The message for `e` in `language`.
pub open spec fn spec_recent_error_message(e: RecentFilesError, language: Language) -> Seq<char> {
    match language {
        Language::English => match e {
            RecentFilesError::NotMarkdown { path } => "Could not add "@ + path@ + " to Recent Files: expected a Markdown file (.md or .markdown)."@,
            RecentFilesError::Read { path } => "Could not read the Recent Files configuration at "@ + path@ + "."@,
            RecentFilesError::Parse { path } => "Could not parse the Recent Files configuration at "@ + path@ + "."@,
            RecentFilesError::CreateDir { path } => "Could not create the Recent Files configuration directory at "@ + path@ + "."@,
            RecentFilesError::Write { path } => "Could not write the Recent Files configuration at "@ + path@ + "."@,
            RecentFilesError::Canonicalize { path } => "Could not resolve the Recent Files path "@ + path@ + "."@,
            RecentFilesError::Serialize { path } => "Could not serialize the Recent Files configuration for "@ + path@ + "."@,
            RecentFilesError::ConfigUnavailable => "Could not resolve the Recent Files configuration directory."@,
        },
        Language::Chinese => match e {
            RecentFilesError::NotMarkdown { path } => "无法将 "@ + path@ + " 加入最近打开：需要 Markdown 文件（.md 或 .markdown）。"@,
            RecentFilesError::Read { path } => "无法读取“最近打开”配置："@ + path@ + "。"@,
            RecentFilesError::Parse { path } => "无法解析“最近打开”配置："@ + path@ + "。"@,
            RecentFilesError::CreateDir { path } => "无法创建“最近打开”配置目录："@ + path@ + "。"@,
            RecentFilesError::Write { path } => "无法写入“最近打开”配置："@ + path@ + "。"@,
            RecentFilesError::Canonicalize { path } => "无法解析最近打开路径："@ + path@ + "。"@,
            RecentFilesError::Serialize { path } => "无法序列化“最近打开”配置："@ + path@ + "。"@,
            RecentFilesError::ConfigUnavailable => "无法确定“最近打开”配置目录。"@,
        },
    }
}

impl RecentFilesError {
    /// The English message (what `Display` shows in the application).
    pub fn message(&self) -> (r: String)
        ensures
            r@ == spec_recent_error_message(*self, Language::English),
    {
        self.localized_message(Language::English)
    }
}

impl LocalizedMessage for RecentFilesError {
    fn localized_message(&self, language: Language) -> (r: String)
        ensures
            r@ == spec_recent_error_message(*self, language),
    {
        match language {
            Language::English => match self {
                RecentFilesError::NotMarkdown { path } => cat3("Could not add ", path.as_str(), " to Recent Files: expected a Markdown file (.md or .markdown)."),
                RecentFilesError::Read { path } => cat3("Could not read the Recent Files configuration at ", path.as_str(), "."),
                RecentFilesError::Parse { path } => cat3("Could not parse the Recent Files configuration at ", path.as_str(), "."),
                RecentFilesError::CreateDir { path } => cat3("Could not create the Recent Files configuration directory at ", path.as_str(), "."),
                RecentFilesError::Write { path } => cat3("Could not write the Recent Files configuration at ", path.as_str(), "."),
                RecentFilesError::Canonicalize { path } => cat3("Could not resolve the Recent Files path ", path.as_str(), "."),
                RecentFilesError::Serialize { path } => cat3("Could not serialize the Recent Files configuration for ", path.as_str(), "."),
                RecentFilesError::ConfigUnavailable => String::from_str("Could not resolve the Recent Files configuration directory."),
            },
            Language::Chinese => match self {
                RecentFilesError::NotMarkdown { path } => cat3("无法将 ", path.as_str(), " 加入最近打开：需要 Markdown 文件（.md 或 .markdown）。"),
                RecentFilesError::Read { path } => cat3("无法读取“最近打开”配置：", path.as_str(), "。"),
                RecentFilesError::Parse { path } => cat3("无法解析“最近打开”配置：", path.as_str(), "。"),
                RecentFilesError::CreateDir { path } => cat3("无法创建“最近打开”配置目录：", path.as_str(), "。"),
                RecentFilesError::Write { path } => cat3("无法写入“最近打开”配置：", path.as_str(), "。"),
                RecentFilesError::Canonicalize { path } => cat3("无法解析最近打开路径：", path.as_str(), "。"),
                RecentFilesError::Serialize { path } => cat3("无法序列化“最近打开”配置：", path.as_str(), "。"),
                RecentFilesError::ConfigUnavailable => String::from_str("无法确定“最近打开”配置目录。"),
            },
        }
    }
}

/// Whether `paths` holds an entry equal to `p`.
pub fn contains_path(paths: &Vec<String>, p: &String) -> (r: bool)
    ensures
        r == views(paths@).contains(p@),
{
    let mut i: usize = 0;
    while i < paths.len()
        invariant
            0 <= i <= paths@.len(),
            forall|j: int| 0 <= j < i ==> paths@[j]@ != p@,
        decreases paths@.len() - i,
    {
        if paths[i] == *p {
            assert(views(paths@)[i as int] == p@);
            return true;
        }
        i = i + 1;
    }
    proof {
        if views(paths@).contains(p@) {
            let k = choose|k: int| 0 <= k < views(paths@).len() && views(paths@)[k] == p@;
            assert(paths@[k]@ == p@);
        }
    }
    false
}

} // verus!
