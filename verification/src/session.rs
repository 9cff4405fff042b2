//! Sessions: their settings, their metadata, and the registry of the
//! sessions loaded in memory, which finds, switches, updates and deletes
//! them.

use std::collections::HashMap;
use std::path::PathBuf;
use vstd::prelude::*;
use crate::string_map::{str_eq, StringMap};
use crate::text::push_char;
use crate::time::now_nanos;

verus! {

#[verifier::external_type_specification]
#[verifier::external_body]
pub struct ExPathBuf(PathBuf);

/// `PathBuf::clone`: the copy holds the same path.
pub assume_specification[ <PathBuf as Clone>::clone ](p: &PathBuf) -> (c: PathBuf)
    ensures
        c == *p,
;

/// Configuration for a session.
#[derive(Debug, Clone)]
pub struct SessionConfig {
    /// Working directory for the session.
    pub working_dir: Option<PathBuf>,
    /// Environment variables for the session.
    pub env_vars: HashMap<String, String>,
    /// Default timeout for operations, in seconds.
    pub default_timeout: Option<u64>,
    /// Whether to enable verbose logging.
    pub verbose: bool,
}

impl Default for SessionConfig {
    fn default() -> (c: Self)
        ensures
            c.working_dir is None,
            c.env_vars@ == Map::<String, String>::empty(),
            c.default_timeout == Some(60u64),
            !c.verbose,
    {
        SessionConfig {
            working_dir: None,
            env_vars: HashMap::new(),
            default_timeout: Some(60),
            verbose: false,
        }
    }
}

/// Configuration for session storage.
#[derive(Debug, Clone)]
pub struct StorageConfig {
    /// Base directory for storage.
    pub base_dir: PathBuf,
    /// Whether to enable compression.
    pub compress: bool,
}

/// JSON file-based session storage.
#[derive(Debug)]
pub struct JsonFileStorage {
    config: StorageConfig,
}

impl JsonFileStorage {
    /// The storage's configuration.
    pub closed spec fn spec_config(&self) -> StorageConfig {
        self.config
    }

    /// A storage that keeps its files under `config.base_dir`; creating
    /// one always succeeds.
    pub fn new(config: StorageConfig) -> (r: Result<Self, ()>)
        ensures
            r matches Ok(s) && s.spec_config() == config,
    {
        Ok(JsonFileStorage { config })
    }

    /// The directory the storage keeps its files in.
    pub fn storage_dir(&self) -> (d: PathBuf)
        ensures
            d == self.spec_config().base_dir,
    {
        self.config.base_dir.clone()
    }
}

// ---------------------------------------------------------------- sessions

/// A session: a named conversation context with its settings and usage
/// metadata. Times are nanoseconds since the Unix epoch.
#[derive(Debug, Clone)]
pub struct Session {
    /// Unique session identifier.
    pub id: u128,
    /// Human-readable session name.
    pub name: String,
    /// Session description.
    pub description: Option<String>,
    /// When the session was created.
    pub created_at: i64,
    /// When the session was last accessed.
    pub last_accessed: i64,
    /// Session configuration.
    pub config: SessionConfig,
    /// Session metadata.
    pub metadata: StringMap,
}

/// A fresh random session identifier (`uuid::Uuid::new_v4`). Nothing is
/// promised of its value.
#[verifier::external_body]
fn fresh_session_id() -> (id: u128) {
    uuid::Uuid::new_v4().as_u128()
}

/// Whether some session of `s` has the identifier `id`.
pub open spec fn has_id(s: Seq<Session>, id: u128) -> bool {
    exists|i: int| 0 <= i < s.len() && #[trigger] s[i].id == id
}

/// The sessions loaded in memory, each identifier at most once.
#[derive(Debug)]
pub struct SessionManager {
    data_dir: PathBuf,
    sessions: Vec<Session>,
}

impl SessionManager {
    #[verifier::type_invariant]
    closed spec fn ids_unique(self) -> bool {
        forall|i: int, j: int|
            0 <= i < j < self.sessions@.len() ==> self.sessions@[i].id != self.sessions@[j].id
    }

    /// The sessions, by identifier.
    pub closed spec fn view_map(&self) -> Map<u128, Session> {
        Map::new(
            |id: u128| has_id(self.sessions@, id),
            |id: u128|
                self.sessions@[choose|i: int| 0 <= i < self.sessions@.len() && self.sessions@[i].id == id],
        )
    }

    /// The directory the sessions are kept in.
    pub closed spec fn spec_data_dir(&self) -> PathBuf {
        self.data_dir
    }

    /// A manager over `data_dir` with no session loaded.
    pub fn new(data_dir: PathBuf) -> (m: Self)
        ensures
            m.view_map() == Map::<u128, Session>::empty(),
            m.spec_data_dir() == data_dir,
    {
        let m = SessionManager { data_dir, sessions: Vec::new() };
        assert(m.view_map() =~= Map::<u128, Session>::empty());
        m
    }

    /// The directory the sessions are kept in.
    pub fn data_dir(&self) -> (d: PathBuf)
        ensures
            d == self.spec_data_dir(),
    {
        self.data_dir.clone()
    }

    /// The sessions held, in no particular order.
    pub fn sessions(&self) -> (s: &[Session])
        ensures
            forall|i: int| 0 <= i < s@.len() ==> self.view_map().contains_key(#[trigger] s@[i].id)
                && self.view_map()[s@[i].id] == s@[i],
            forall|id: u128| #[trigger] self.view_map().contains_key(id) ==> has_id(s@, id),
            s@.len() == self.view_map().len(),
    {
        proof {
            use_type_invariant(self);
            self.lemma_map_len();
        }
        assert forall|i: int| 0 <= i < self.sessions@.len() implies self.view_map().contains_key(#[trigger] self.sessions@[i].id)
            && self.view_map()[self.sessions@[i].id] == self.sessions@[i] by {
            let id = self.sessions@[i].id;
            let j = choose|j: int| 0 <= j < self.sessions@.len() && self.sessions@[j].id == id;
            assert(i == j);
        }
        self.sessions.as_slice()
    }

    /// The number of sessions equals the number of map entries.
    proof fn lemma_map_len(&self)
        requires
            self.ids_unique(),
        ensures
            self.view_map().len() == self.sessions@.len(),
            self.view_map().dom() == self.sessions@.map_values(|s: Session| s.id).to_set(),
    {
        let ids = self.sessions@.map_values(|s: Session| s.id);
        assert(self.view_map().dom() =~= ids.to_set()) by {
            assert forall|id: u128| #[trigger] ids.to_set().contains(id) implies has_id(self.sessions@, id) by {
                let i = choose|i: int| 0 <= i < ids.len() && ids[i] == id;
                assert(self.sessions@[i].id == id);
            }
            assert forall|id: u128| has_id(self.sessions@, id) implies #[trigger] ids.to_set().contains(id) by {
                let i = choose|i: int| 0 <= i < self.sessions@.len() && #[trigger] self.sessions@[i].id == id;
                assert(ids[i] == id);
            }
        }
        assert(ids.no_duplicates()) by {
            assert forall|i: int, j: int| 0 <= i < ids.len() && 0 <= j < ids.len() && i != j implies ids[i] != ids[j] by {
                if i < j {
                } else {
                }
            }
        }
        ids.unique_seq_to_set();
    }

    /// The position of the session `id`.
    fn index_of(&self, id: u128) -> (r: Option<usize>)
        ensures
            match r {
                Some(i) => i < self.sessions.len() && self.sessions@[i as int].id == id,
                None => !has_id(self.sessions@, id),
            },
    {
        let mut i: usize = 0;
        while i < self.sessions.len()
            invariant
                i <= self.sessions.len(),
                forall|j: int| 0 <= j < i ==> self.sessions@[j].id != id,
            decreases self.sessions.len() - i,
        {
            if self.sessions[i].id == id {
                return Some(i);
            }
            i += 1;
        }
        None
    }

    /// The session at position `i` is the one the map gives for its id.
    proof fn lemma_at(&self, i: int)
        requires
            self.ids_unique(),
            0 <= i < self.sessions@.len(),
        ensures
            self.view_map().contains_key(self.sessions@[i].id),
            self.view_map()[self.sessions@[i].id] == self.sessions@[i],
    {
        let id = self.sessions@[i].id;
        let j = choose|j: int| 0 <= j < self.sessions@.len() && self.sessions@[j].id == id;
        assert(i == j);
    }

    /// Puts `s` in the place of the session with the same identifier, or
    /// adds it when there is none.
    pub fn put(&mut self, s: Session)
        ensures
            final(self).view_map() == old(self).view_map().insert(s.id, s),
            final(self).spec_data_dir() == old(self).spec_data_dir(),
    {
        proof {
            use_type_invariant(&*self);
        }
        let ghost before = self.sessions@;
        let ghost sid = s.id;
        let ghost sv = s;
        let found = self.index_of(s.id);
        let mut sessions: Vec<Session> = Vec::new();
        std::mem::swap(&mut sessions, &mut self.sessions);
        match found {
            Some(i) => {
                sessions.set(i, s);
            },
            None => {
                sessions.push(s);
            },
        }
        proof {
            assert forall|j: int| 0 <= j < before.len() && (found is None || j != found->0) implies #[trigger] sessions@[j] == before[j] by {}
            assert forall|j: int| 0 <= j < before.len() implies #[trigger] sessions@[j].id == before[j].id by {}
        }
        self.sessions = sessions;
        proof {
            let after = self.sessions@;
            let n = before.len() as int;
            assert forall|q: u128| #[trigger] has_id(after, q) <==> (q == sid || has_id(before, q)) by {
                if has_id(before, q) {
                    let j = choose|j: int| 0 <= j < n && #[trigger] before[j].id == q;
                    assert(after[j].id == q);
                }
                if q == sid {
                    match found {
                        Some(i) => assert(after[i as int].id == sid),
                        None => assert(after[n].id == sid),
                    }
                }
            }
            assert forall|q: u128| #[trigger] self.view_map().contains_key(q) implies self.view_map()[q] == old(self).view_map().insert(sid, sv)[q] by {
                let j = choose|j: int| 0 <= j < after.len() && after[j].id == q;
                if q != sid {
                    let j0 = choose|j: int| 0 <= j < n && before[j].id == q;
                    assert(after[j0].id == q);
                    assert(j == j0);
                } else {
                    match found {
                        Some(i) => assert(j == i),
                        None => assert(j == n),
                    }
                }
            }
            assert(self.view_map() =~= old(self).view_map().insert(sid, sv));
        }
    }

    /// Takes the session `id` out of memory, if it is there.
    pub fn take(&mut self, id: u128) -> (taken: Option<Session>)
        ensures
            match taken {
                Some(s) => old(self).view_map().contains_key(id) && s == old(self).view_map()[id],
                None => !old(self).view_map().contains_key(id),
            },
            final(self).view_map() == old(self).view_map().remove(id),
            final(self).spec_data_dir() == old(self).spec_data_dir(),
    {
        proof {
            use_type_invariant(&*self);
        }
        let ghost before = self.sessions@;
        match self.index_of(id) {
            Some(i) => {
                let mut sessions: Vec<Session> = Vec::new();
                std::mem::swap(&mut sessions, &mut self.sessions);
                let gone = sessions.remove(i);
                proof {
                    assert forall|a: int, b: int| 0 <= a < b < sessions@.len() implies sessions@[a].id != sessions@[b].id by {
                        let a0 = if a < i { a } else { a + 1 };
                        let b0 = if b < i { b } else { b + 1 };
                        assert(sessions@[a] == before[a0] && sessions@[b] == before[b0]);
                    }
                }
                self.sessions = sessions;
                proof {
                    let after = self.sessions@;
                    assert forall|q: u128| #[trigger] has_id(after, q) <==> (q != id && has_id(before, q)) by {
                        if has_id(before, q) && q != id {
                            let j = choose|j: int| 0 <= j < before.len() && #[trigger] before[j].id == q;
                            if j < i {
                                assert(after[j].id == q);
                            } else {
                                assert(j != i);
                                assert(after[j - 1].id == q);
                            }
                        }
                        if has_id(after, q) {
                            let j = choose|j: int| 0 <= j < after.len() && #[trigger] after[j].id == q;
                            let j0 = if j < i { j } else { j + 1 };
                            assert(before[j0].id == q);
                        }
                    }
                    assert forall|q: u128| #[trigger] self.view_map().contains_key(q) implies self.view_map()[q] == old(self).view_map()[q] by {
                        let j = choose|j: int| 0 <= j < after.len() && after[j].id == q;
                        let j0 = if j < i { j } else { j + 1 };
                        assert(before[j0] == after[j]);
                        let k = choose|k: int| 0 <= k < before.len() && before[k].id == q;
                        assert(k == j0);
                    }
                    assert(old(self).view_map().contains_key(id)) by {
                        assert(before[i as int].id == id);
                    }
                    let k = choose|k: int| 0 <= k < before.len() && before[k].id == id;
                    assert(k == i);
                    assert(self.view_map() =~= old(self).view_map().remove(id));
                }
                Some(gone)
            },
            None => {
                assert(self.view_map() =~= old(self).view_map().remove(id));
                None
            },
        }
    }
}


/// The sessions after the session `id` was accessed at time `t`.
pub open spec fn touched(m: Map<u128, Session>, id: u128, t: i64) -> Map<u128, Session> {
    if m.contains_key(id) {
        m.insert(id, Session { last_accessed: t, ..m[id] })
    } else {
        m
    }
}

/// Whether `id` is a session accessed no earlier than any other: the
/// current session.
pub open spec fn is_current(m: Map<u128, Session>, id: u128) -> bool {
    &&& m.contains_key(id)
    &&& forall|j: u128| #[trigger] m.contains_key(j) ==> m[j].last_accessed <= m[id].last_accessed
}

impl SessionManager {
    /// Records that the session `id` was accessed at time `now`.
    pub fn touch_at(&mut self, id: u128, now: i64)
        ensures
            final(self).view_map() == touched(old(self).view_map(), id, now),
            final(self).spec_data_dir() == old(self).spec_data_dir(),
    {
        match self.take(id) {
            Some(mut s) => {
                s.last_accessed = now;
                self.put(s);
                assert(self.view_map() =~= touched(old(self).view_map(), id, now));
            },
            None => {
                assert(self.view_map() =~= old(self).view_map());
            },
        }
    }

    /// Creates a session with a fresh identifier, accessed now, with the
    /// default configuration and no metadata; gives its identifier.
    pub fn create_session(&mut self, name: String, description: Option<String>) -> (id: u128)
        ensures
            final(self).view_map().contains_key(id),
            final(self).view_map()[id].name@ == name@,
            final(self).view_map()[id].description == description,
            final(self).view_map()[id].created_at == final(self).view_map()[id].last_accessed,
            final(self).view_map()[id].metadata.map() == Map::<Seq<char>, Seq<char>>::empty(),
            final(self).view_map()[id].config.working_dir is None,
            final(self).view_map()[id].config.env_vars@ == Map::<String, String>::empty(),
            final(self).view_map()[id].config.default_timeout == Some(60u64),
            !final(self).view_map()[id].config.verbose,
            final(self).view_map() == old(self).view_map().insert(id, final(self).view_map()[id]),
            final(self).spec_data_dir() == old(self).spec_data_dir(),
    {
        let id = fresh_session_id();
        let now = now_nanos();
        let session = Session {
            id,
            name,
            description,
            created_at: now,
            last_accessed: now,
            config: SessionConfig::default(),
            metadata: StringMap::new(),
        };
        self.put(session);
        id
    }

    /// The session `id`, recording that it was accessed now.
    pub fn get_session(&mut self, id: u128) -> (r: Option<&Session>)
        ensures
            exists|t: i64| final(self).view_map() == touched(old(self).view_map(), id, t),
            match r {
                Some(s) => final(self).view_map().contains_key(id) && *s == final(self).view_map()[id],
                None => !old(self).view_map().contains_key(id),
            },
            final(self).spec_data_dir() == old(self).spec_data_dir(),
    {
        let now = now_nanos();
        self.touch_at(id, now);
        proof {
            use_type_invariant(&*self);
        }
        match self.index_of(id) {
            Some(i) => {
                proof {
                    self.lemma_at(i as int);
                }
                Some(&self.sessions[i])
            },
            None => None,
        }
    }

    /// The identifier of a session called `name`, if there is one.
    pub fn find_by_name(&self, name: &str) -> (r: Option<u128>)
        ensures
            match r {
                Some(id) => self.view_map().contains_key(id) && self.view_map()[id].name@ == name@,
                None => forall|id: u128| #[trigger] self.view_map().contains_key(id) ==> self.view_map()[id].name@ != name@,
            },
    {
        proof {
            use_type_invariant(self);
        }
        let mut i: usize = 0;
        while i < self.sessions.len()
            invariant
                i <= self.sessions.len(),
                self.ids_unique(),
                forall|j: int| 0 <= j < i ==> self.sessions@[j].name@ != name@,
            decreases self.sessions.len() - i,
        {
            if str_eq(self.sessions[i].name.as_str(), name) {
                proof {
                    self.lemma_at(i as int);
                }
                return Some(self.sessions[i].id);
            }
            i += 1;
        }
        assert forall|id: u128| #[trigger] self.view_map().contains_key(id) implies self.view_map()[id].name@ != name@ by {
            let j = choose|j: int| 0 <= j < self.sessions@.len() && self.sessions@[j].id == id;
        }
        None
    }

    /// The identifier of a session named by `key`: the session whose
    /// identifier displays as `key`, else a session called `key`. An
    /// identifier match wins over a name match.
    pub fn find_by_name_or_id(&self, key: &str) -> (r: Option<u128>)
        ensures
            match r {
                Some(id) => {
                    &&& self.view_map().contains_key(id)
                    &&& (uuid_text(id) == key@ || self.view_map()[id].name@ == key@)
                    &&& (exists|j: u128| #[trigger] self.view_map().contains_key(j) && uuid_text(j) == key@)
                        ==> uuid_text(id) == key@
                },
                None => forall|id: u128| #[trigger] self.view_map().contains_key(id)
                    ==> uuid_text(id) != key@ && self.view_map()[id].name@ != key@,
            },
    {
        proof {
            use_type_invariant(self);
        }
        let mut i: usize = 0;
        while i < self.sessions.len()
            invariant
                i <= self.sessions.len(),
                self.ids_unique(),
                forall|j: int| 0 <= j < i ==> uuid_text(#[trigger] self.sessions@[j].id) != key@,
            decreases self.sessions.len() - i,
        {
            let text = uuid_string(self.sessions[i].id);
            if str_eq(text.as_str(), key) {
                proof {
                    self.lemma_at(i as int);
                }
                return Some(self.sessions[i].id);
            }
            i += 1;
        }
        assert forall|id: u128| #[trigger] self.view_map().contains_key(id) implies uuid_text(id) != key@ by {
            let j = choose|j: int| 0 <= j < self.sessions@.len() && self.sessions@[j].id == id;
            assert(uuid_text(self.sessions@[j].id) != key@);
        }
        self.find_by_name(key)
    }

    /// The session called `name`, recording that it was accessed now.
    pub fn get_session_by_name(&mut self, name: &str) -> (r: Option<&Session>)
        ensures
            match r {
                Some(s) => {
                    &&& exists|t: i64| final(self).view_map() == touched(old(self).view_map(), s.id, t)
                    &&& final(self).view_map().contains_key(s.id)
                    &&& *s == final(self).view_map()[s.id]
                    &&& s.name@ == name@
                },
                None => {
                    &&& final(self).view_map() == old(self).view_map()
                    &&& forall|id: u128| #[trigger] old(self).view_map().contains_key(id)
                        ==> old(self).view_map()[id].name@ != name@
                },
            },
            final(self).spec_data_dir() == old(self).spec_data_dir(),
    {
        match self.find_by_name(name) {
            Some(id) => self.get_session(id),
            None => None,
        }
    }

    /// The identifier of the current session: one accessed no earlier than
    /// any other; none when no session is loaded.
    pub fn current_session_id(&self) -> (r: Option<u128>)
        ensures
            match r {
                Some(id) => is_current(self.view_map(), id),
                None => self.view_map().dom() == Set::<u128>::empty(),
            },
    {
        proof {
            use_type_invariant(self);
        }
        if self.sessions.len() == 0 {
            assert(self.view_map().dom() =~= Set::<u128>::empty());
            return None;
        }
        let mut best: usize = 0;
        let mut i: usize = 1;
        while i < self.sessions.len()
            invariant
                1 <= i <= self.sessions.len(),
                best < i,
                forall|j: int| 0 <= j < i ==> self.sessions@[j].last_accessed
                    <= self.sessions@[best as int].last_accessed,
            decreases self.sessions.len() - i,
        {
            if self.sessions[i].last_accessed >= self.sessions[best].last_accessed {
                best = i;
            }
            i += 1;
        }
        proof {
            self.lemma_at(best as int);
            assert forall|j: u128| #[trigger] self.view_map().contains_key(j) implies self.view_map()[j].last_accessed
                <= self.view_map()[self.sessions@[best as int].id].last_accessed by {
                let k = choose|k: int| 0 <= k < self.sessions@.len() && self.sessions@[k].id == j;
                self.lemma_at(k);
            }
        }
        Some(self.sessions[best].id)
    }

    /// Makes the session `id` the one accessed now; nothing happens when
    /// there is no such session.
    pub fn switch_to_session(&mut self, id: u128)
        ensures
            exists|t: i64| final(self).view_map() == touched(old(self).view_map(), id, t),
            final(self).spec_data_dir() == old(self).spec_data_dir(),
    {
        let now = now_nanos();
        self.touch_at(id, now);
    }

    /// Deletes the session `id` from memory; whether it was there.
    pub fn delete_session(&mut self, id: u128) -> (deleted: bool)
        ensures
            deleted == old(self).view_map().contains_key(id),
            final(self).view_map() == old(self).view_map().remove(id),
            final(self).spec_data_dir() == old(self).spec_data_dir(),
    {
        self.take(id).is_some()
    }

    /// Stores `value` under `key` in the metadata of session `id` and
    /// records the access at time `now`; nothing happens when there is no
    /// such session.
    pub fn update_metadata_at(&mut self, id: u128, key: String, value: String, now: i64)
        ensures
            final(self).view_map().dom() == old(self).view_map().dom(),
            forall|j: u128| #[trigger] old(self).view_map().contains_key(j) && j != id
                ==> final(self).view_map()[j] == old(self).view_map()[j],
            old(self).view_map().contains_key(id) ==> {
                let (o, n) = (old(self).view_map()[id], final(self).view_map()[id]);
                &&& n.metadata.map() == o.metadata.map().insert(key@, value@)
                &&& n.last_accessed == now
                &&& n.id == o.id && n.name == o.name && n.description == o.description
                &&& n.created_at == o.created_at && n.config == o.config
            },
            final(self).spec_data_dir() == old(self).spec_data_dir(),
    {
        match self.take(id) {
            Some(mut s) => {
                s.metadata.insert(key, value);
                s.last_accessed = now;
                self.put(s);
                assert(self.view_map().dom() =~= old(self).view_map().dom());
            },
            None => {},
        }
    }

    /// Stores `value` under `key` in the metadata of session `id`,
    /// recording the access now.
    pub fn update_session_metadata(&mut self, id: u128, key: String, value: String)
        ensures
            final(self).view_map().dom() == old(self).view_map().dom(),
            forall|j: u128| #[trigger] old(self).view_map().contains_key(j) && j != id
                ==> final(self).view_map()[j] == old(self).view_map()[j],
            old(self).view_map().contains_key(id) ==> {
                let (o, n) = (old(self).view_map()[id], final(self).view_map()[id]);
                &&& n.metadata.map() == o.metadata.map().insert(key@, value@)
                &&& n.id == o.id && n.name == o.name && n.description == o.description
                &&& n.created_at == o.created_at && n.config == o.config
            },
            final(self).spec_data_dir() == old(self).spec_data_dir(),
    {
        let now = now_nanos();
        self.update_metadata_at(id, key, value, now);
    }
}

/// Switching to a session at a time later than every recorded access makes
/// it the one and only current session.
pub proof fn law_switch_makes_current(m: Map<u128, Session>, id: u128, t: i64)
    requires
        m.contains_key(id),
        forall|j: u128| #[trigger] m.contains_key(j) ==> m[j].last_accessed < t,
    ensures
        is_current(touched(m, id, t), id),
        forall|j: u128| #[trigger] is_current(touched(m, id, t), j) ==> j == id,
{
    let m2 = touched(m, id, t);
    assert forall|j: u128| #[trigger] is_current(m2, j) implies j == id by {
        if j != id {
            assert(m2.contains_key(id));
            assert(m2[id].last_accessed <= m2[j].last_accessed);
        }
    }
}

/// A created session can be found by its name: after adding `s` under its
/// identifier, some session of the manager bears that name (the search by
/// name then finds one).
pub proof fn law_created_session_is_found(m: Map<u128, Session>, s: Session)
    ensures
        m.insert(s.id, s).contains_key(s.id),
        m.insert(s.id, s)[s.id].name@ == s.name@,
        exists|id: u128| #[trigger] m.insert(s.id, s).contains_key(id) && m.insert(s.id, s)[id].name@ == s.name@,
{
}

/// A deleted session is gone, and only that one: every other session stays
/// as it was.
pub proof fn law_delete_removes_only_that_session(m: Map<u128, Session>, id: u128)
    ensures
        !m.remove(id).contains_key(id),
        forall|j: u128| #[trigger] m.contains_key(j) && j != id ==> m.remove(id).contains_key(j) && m.remove(id)[j]
            == m[j],
{
}

/// What is written to a session's metadata is read back, and no other key
/// changes.
pub proof fn law_metadata_read_back(meta: Map<Seq<char>, Seq<char>>, key: Seq<char>, value: Seq<char>)
    ensures
        meta.insert(key, value).contains_key(key),
        meta.insert(key, value)[key] == value,
        forall|k: Seq<char>| k != key ==> #[trigger] meta.insert(key, value).contains_key(k) == meta.contains_key(k)
            && (meta.contains_key(k) ==> meta.insert(key, value)[k] == meta[k]),
{
}

/// Accessing a session changes nothing but its access time.
pub proof fn law_touch_keeps_sessions(m: Map<u128, Session>, id: u128, t: i64)
    ensures
        touched(m, id, t).dom() == m.dom(),
        forall|j: u128| #[trigger] m.contains_key(j) ==> touched(m, id, t)[j].name == m[j].name
            && touched(m, id, t)[j].id == m[j].id && touched(m, id, t)[j].metadata == m[j].metadata,
{
    assert(touched(m, id, t).dom() =~= m.dom());
}

/// The character of a hexadecimal digit, lower case.
pub open spec fn hex_char(d: nat) -> char {
    if d < 10 {
        ((48 + d) as char)
    } else {
        ((87 + d) as char)
    }
}

/// The last `n` hexadecimal digits of `x`, most significant first.
pub open spec fn hex_digits(x: nat, n: nat) -> Seq<char>
    decreases n,
{
    if n == 0 {
        Seq::empty()
    } else {
        hex_digits(x / 16, (n - 1) as nat).push(hex_char(x % 16))
    }
}

/// A UUID as `uuid::Uuid` displays it: 32 lower-case hexadecimal digits in
/// groups of 8, 4, 4, 4 and 12 joined by hyphens.
pub open spec fn uuid_text(id: u128) -> Seq<char> {
    let h = hex_digits(id as nat, 32);
    h.subrange(0, 8) + "-"@ + h.subrange(8, 12) + "-"@ + h.subrange(12, 16) + "-"@ + h.subrange(16, 20)
        + "-"@ + h.subrange(20, 32)
}

/// The hexadecimal digit character of `d < 16`.
fn hex_digit(d: u128) -> (c: char)
    requires
        d < 16,
    ensures
        c == hex_char(d as nat),
{
    if d < 10 {
        ((48 + d) as u8) as char
    } else {
        ((87 + d) as u8) as char
    }
}

/// The hyphenated lower-case text of a session identifier, as `Uuid`
/// displays it.
pub fn uuid_string(id: u128) -> (s: String)
    ensures
        s@ == uuid_text(id),
{
    let mut digits: Vec<char> = Vec::new();
    let mut x = id;
    let mut n: usize = 0;
    let ghost mut rest: nat = id as nat;
    while n < 32
        invariant
            n <= 32,
            digits.len() == n,
            x as nat == rest,
            hex_digits(id as nat, 32) == hex_digits(rest, (32 - n) as nat) + digits@.reverse(),
        decreases 32 - n,
    {
        let c = hex_digit(x % 16);
        proof {
            let k = (32 - n - 1) as nat;
            assert(hex_digits(rest, (k + 1) as nat) == hex_digits(rest / 16, k).push(hex_char(rest % 16)));
            assert(digits@.push(c).reverse() =~= seq![c] + digits@.reverse());
            assert(hex_digits(rest / 16, k).push(c) + digits@.reverse() =~= hex_digits(rest / 16, k) + (seq![c] + digits@.reverse()));
            rest = rest / 16;
        }
        digits.push(c);
        x = x / 16;
        n += 1;
    }
    assert(hex_digits(rest, 0) =~= Seq::<char>::empty());
    let mut s = String::new();
    let mut i: usize = 0;
    while i < 32
        invariant
            i <= 32,
            digits.len() == 32,
            hex_digits(id as nat, 32) == digits@.reverse(),
            s@ == group_text(digits@.reverse(), i as int),
        decreases 32 - i,
    {
        if i == 8 || i == 12 || i == 16 || i == 20 {
            push_char(&mut s, '-');
        }
        push_char(&mut s, digits[31 - i]);
        i += 1;
    }
    proof {
        lemma_group_text(digits@.reverse(), 32);
        reveal_strlit("-");
        let h = digits@.reverse();
        assert(uuid_text(id) =~= h.take(8) + seq!['-'] + h.subrange(8, 12) + seq!['-'] + h.subrange(
            12,
            16,
        ) + seq!['-'] + h.subrange(16, 20) + seq!['-'] + h.subrange(20, 32));
    }
    s
}

/// `group_text` in closed form.
pub open spec fn grouped(h: Seq<char>, i: int) -> Seq<char> {
    if i <= 8 {
        h.take(i)
    } else if i <= 12 {
        h.take(8) + seq!['-'] + h.subrange(8, i)
    } else if i <= 16 {
        h.take(8) + seq!['-'] + h.subrange(8, 12) + seq!['-'] + h.subrange(12, i)
    } else if i <= 20 {
        h.take(8) + seq!['-'] + h.subrange(8, 12) + seq!['-'] + h.subrange(12, 16) + seq!['-']
            + h.subrange(16, i)
    } else {
        h.take(8) + seq!['-'] + h.subrange(8, 12) + seq!['-'] + h.subrange(12, 16) + seq!['-']
            + h.subrange(16, 20) + seq!['-'] + h.subrange(20, i)
    }
}

/// The hyphenated prefix of `h` has the closed form `grouped`.
proof fn lemma_group_text(h: Seq<char>, i: int)
    requires
        h.len() == 32,
        0 <= i <= 32,
    ensures
        group_text(h, i) == grouped(h, i),
    decreases i,
{
    if i > 0 {
        lemma_group_text(h, i - 1);
        let sep = if i - 1 == 8 || i - 1 == 12 || i - 1 == 16 || i - 1 == 20 {
            seq!['-']
        } else {
            Seq::<char>::empty()
        };
        assert(grouped(h, i) =~= grouped(h, i - 1) + sep + seq![h[i - 1]]);
    } else {
        assert(grouped(h, 0) =~= Seq::<char>::empty());
    }
}

/// The first `i` digits of `h` with hyphens before digits 8, 12, 16 and 20.
pub open spec fn group_text(h: Seq<char>, i: int) -> Seq<char>
    decreases i,
{
    if i <= 0 {
        Seq::empty()
    } else {
        let before = group_text(h, i - 1);
        let sep = if i - 1 == 8 || i - 1 == 12 || i - 1 == 16 || i - 1 == 20 {
            seq!['-']
        } else {
            Seq::empty()
        };
        before + sep + seq![h[i - 1]]
    }
}

} // verus!
