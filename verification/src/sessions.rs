//! The recording sessions a recorder has open, by session id: each Take's
//! state machine and the Course Folder it records into. The capture handles
//! of the recorder stay with the caller, under the same ids.

use vstd::prelude::*;
use crate::course::{found_at, index_of, lemma_index_of_at, lemma_index_of_props};
use crate::error::CoreError;
use crate::recording::{
    is_active_state, transition_result, RecordingSession, SessionEvent, SessionState,
};

verus! {

/// One open session and the Course Folder its Take records into.
pub struct SessionEntry<D> {
    pub session: RecordingSession<D>,
    pub course_folder: String,
}

/// Where the session `id` stands among `entries`, or `-1`.
pub open spec fn session_pos<D>(entries: Seq<SessionEntry<D>>, id: Seq<char>) -> int {
    index_of(entries, has_id(id))
}

/// Whether an entry is the session `id`.
pub open spec fn has_id<D>(id: Seq<char>) -> spec_fn(SessionEntry<D>) -> bool {
    |e: SessionEntry<D>| e.session.id@ == id
}

/// A session that still holds the recorder or waits for Keep or Discard:
/// closing the window would lose it.
pub open spec fn holds_a_take(s: SessionState) -> bool {
    is_active_state(s) || s is AwaitingDecision
}

/// `entries` with `e` under its session id: replacing the session of that
/// id, or appended.
pub open spec fn put_session<D>(entries: Seq<SessionEntry<D>>, e: SessionEntry<D>) -> Seq<SessionEntry<D>> {
    let p = session_pos(entries, e.session.id@);
    if p >= 0 {
        entries.update(p, e)
    } else {
        entries.push(e)
    }
}

/// No two sessions share an id.
pub open spec fn ids_distinct<D>(entries: Seq<SessionEntry<D>>) -> bool {
    forall|a: int, b: int|
        0 <= a < b < entries.len() ==> #[trigger] entries[a].session.id@ != #[trigger] entries[b].session.id@
}

proof fn lemma_session_pos<D>(entries: Seq<SessionEntry<D>>, id: Seq<char>)
    ensures
        -1 <= session_pos(entries, id) < entries.len(),
        session_pos(entries, id) >= 0 ==> entries[session_pos(entries, id)].session.id@ == id,
        session_pos(entries, id) < 0 ==> forall|j: int|
            0 <= j < entries.len() ==> (#[trigger] entries[j]).session.id@ != id,
{
    lemma_index_of_props(entries, has_id::<D>(id));
}

/// A Take needs at least one source: an empty request list is refused
/// before anything is allocated.
pub fn require_sources<T>(requests: &Vec<T>) -> (r: Result<(), CoreError>)
    ensures
        requests@.len() > 0 ==> r is Ok,
        requests@.len() == 0 ==> (r matches Err(CoreError::Recorder(m))
            && m@ == "no capture sources requested \u{2014} Start needs at least one"@),
{
    if requests.len() == 0 {
        return Err(CoreError::Recorder("no capture sources requested \u{2014} Start needs at least one".to_owned()));
    }
    Ok(())
}

/// The open sessions, in the order they were started.
pub struct SessionRegistry<D> {
    entries: Vec<SessionEntry<D>>,
}

fn find_session<D>(entries: &Vec<SessionEntry<D>>, id: &String) -> (r: Option<usize>)
    ensures
        found_at(r, session_pos(entries@, id@)),
        r matches Some(i) ==> i < entries@.len() && entries@[i as int].session.id@ == id@,
{
    let ghost p = has_id::<D>(id@);
    let mut i: usize = 0;
    while i < entries.len()
        invariant
            i <= entries.len(),
            p == has_id::<D>(id@),
            forall|k: int| 0 <= k < i ==> !p(#[trigger] entries@[k]),
        decreases entries.len() - i,
    {
        if entries[i].session.id == *id {
            proof {
                lemma_index_of_at(entries@, p, i as int);
            }
            return Some(i);
        }
        i = i + 1;
    }
    proof {
        lemma_index_of_at(entries@, p, i as int);
    }
    None
}

impl<D> SessionRegistry<D> {
    pub closed spec fn entries(&self) -> Seq<SessionEntry<D>> {
        self.entries@
    }

    pub fn new() -> (r: SessionRegistry<D>)
        ensures
            r.entries() == Seq::<SessionEntry<D>>::empty(),
            ids_distinct(r.entries()),
    {
        SessionRegistry { entries: Vec::new() }
    }

    /// Registers a started session, replacing one of the same id.
    pub fn insert(&mut self, session: RecordingSession<D>, course_folder: String)
        ensures
            final(self).entries() == put_session(
                old(self).entries(),
                SessionEntry { session, course_folder },
            ),
            ids_distinct(old(self).entries()) ==> ids_distinct(final(self).entries()),
    {
        let found = find_session(&self.entries, &session.id);
        proof {
            lemma_session_pos(self.entries@, session.id@);
        }
        let entry = SessionEntry { session, course_folder };
        match found {
            Some(i) => {
                self.entries.set(i, entry);
                assert forall|a: int, b: int|
                    ids_distinct(old(self).entries()) && 0 <= a < b < self.entries@.len() implies
                    #[trigger] self.entries@[a].session.id@ != #[trigger] self.entries@[b].session.id@ by {
                    assert(old(self).entries@[a].session.id@ != old(self).entries@[b].session.id@);
                }
            },
            None => {
                self.entries.push(entry);
                assert forall|a: int, b: int|
                    ids_distinct(old(self).entries()) && 0 <= a < b < self.entries@.len() implies
                    #[trigger] self.entries@[a].session.id@ != #[trigger] self.entries@[b].session.id@ by {
                    if b < old(self).entries@.len() {
                        assert(old(self).entries@[a].session.id@ != old(self).entries@[b].session.id@);
                    } else {
                        assert(self.entries@[a] == old(self).entries@[a]);
                    }
                }
            },
        }
    }

    /// Whether some session is recording, paused, or waiting for Keep or
    /// Discard.
    pub fn has_active_sessions(&self) -> (b: bool)
        ensures
            b == exists|k: int|
                0 <= k < self.entries().len() && holds_a_take(#[trigger] self.entries()[k].session.state),
    {
        let mut i: usize = 0;
        while i < self.entries.len()
            invariant
                i <= self.entries.len(),
                forall|k: int| 0 <= k < i ==> !holds_a_take(#[trigger] self.entries@[k].session.state),
            decreases self.entries.len() - i,
        {
            if self.entries[i].session.is_active() || self.entries[i].session.state
                == SessionState::AwaitingDecision {
                assert(holds_a_take(self.entries@[i as int].session.state));
                return true;
            }
            i = i + 1;
        }
        false
    }

    /// The session `id`, or `SessionNotFound`.
    pub fn get(&self, id: &str) -> (r: Result<&SessionEntry<D>, CoreError>)
        ensures
            session_pos(self.entries(), id@) < 0 ==> (r matches Err(CoreError::SessionNotFound(v))
                && v@ == id@),
            session_pos(self.entries(), id@) >= 0 ==> (r matches Ok(e) && *e == self.entries()[session_pos(
                self.entries(),
                id@,
            )]),
    {
        match find_session(&self.entries, &id.to_owned()) {
            Some(i) => Ok(&self.entries[i]),
            None => Err(CoreError::SessionNotFound(id.to_owned())),
        }
    }

    /// Applies `e` to the session `id`: `SessionNotFound` for an unknown id,
    /// else what the session's state machine answers; no other session
    /// changes.
    pub fn transition(&mut self, id: &str, e: SessionEvent) -> (r: Result<(), CoreError>)
        ensures
            session_pos(old(self).entries(), id@) < 0 ==> (r matches Err(CoreError::SessionNotFound(v))
                && v@ == id@ && final(self).entries() == old(self).entries()),
            session_pos(old(self).entries(), id@) >= 0 ==> ({
                let p = session_pos(old(self).entries(), id@);
                let before = old(self).entries()[p];
                let after = final(self).entries()[p];
                &&& final(self).entries() == old(self).entries().update(p, after)
                &&& after.course_folder == before.course_folder
                &&& transition_result(before.session, after.session, e, r)
            }),
            ids_distinct(old(self).entries()) ==> ids_distinct(final(self).entries()),
    {
        match find_session(&self.entries, &id.to_owned()) {
            None => Err(CoreError::SessionNotFound(id.to_owned())),
            Some(i) => {
                let ghost old_entries = self.entries@;
                let mut entry = self.entries.remove(i);
                let ghost before = entry;
                let r = entry.session.transition(e);
                self.entries.insert(i, entry);
                assert(self.entries@ =~= old_entries.update(i as int, self.entries@[i as int]));
                r
            },
        }
    }

    /// Drops the session `id`, handing it back; an unknown id gives `None`.
    pub fn remove(&mut self, id: &str) -> (r: Option<SessionEntry<D>>)
        ensures
            session_pos(old(self).entries(), id@) < 0 ==> r is None && final(self).entries() == old(
                self,
            ).entries(),
            session_pos(old(self).entries(), id@) >= 0 ==> ({
                let p = session_pos(old(self).entries(), id@);
                &&& r == Some(old(self).entries()[p])
                &&& final(self).entries() == old(self).entries().remove(p)
            }),
            ids_distinct(old(self).entries()) ==> ids_distinct(final(self).entries()),
    {
        match find_session(&self.entries, &id.to_owned()) {
            None => None,
            Some(i) => Some(self.entries.remove(i)),
        }
    }

    /// Every open session, in the order they were started.
    pub fn sessions(&self) -> (r: &[SessionEntry<D>])
        ensures
            r@ == self.entries(),
    {
        self.entries.as_slice()
    }
}

/// Keep and Discard evict: once the session `id` is removed from a
/// registry whose ids are distinct, the id is unknown to it (every later
/// call on it answers `SessionNotFound`).
pub proof fn lemma_removed_session_is_gone<D>(entries: Seq<SessionEntry<D>>, id: Seq<char>)
    requires
        ids_distinct(entries),
        session_pos(entries, id) >= 0,
    ensures
        session_pos(entries.remove(session_pos(entries, id)), id) < 0,
{
    let p = session_pos(entries, id);
    let rest = entries.remove(p);
    lemma_session_pos(entries, id);
    lemma_session_pos(rest, id);
    let q = session_pos(rest, id);
    if q >= 0 {
        if q < p {
            assert(rest[q] == entries[q]);
            assert(entries[q].session.id@ != entries[p].session.id@);
        } else {
            assert(rest[q] == entries[q + 1]);
            assert(entries[p].session.id@ != entries[q + 1].session.id@);
        }
    }
}

} // verus!
