use vstd::prelude::*;
use vstd::string::StringExecFns;
use crate::errors::SessionError;

verus! {

/// One registered session: the caller-chosen identifier and the handle under
/// which the host keeps the process's resources (the process itself, its
/// input stream and the receive end of its hand-off channel).
pub struct SessionEntry {
    pub id: String,
    pub slot: u64,
}

/// The shared mapping from session identifier to session. The host owns one
/// registry behind a lock and holds that lock over each lookup, check and
/// insertion, so the single-threaded transitions verified here are exactly
/// the critical sections it executes.
pub struct Registry {
    entries: Vec<SessionEntry>,
}

/// The number of registered sessions bearing an identifier.
pub open spec fn id_count(s: Seq<(Seq<char>, u64)>, id: Seq<char>) -> nat {
    s.filter(|p: (Seq<char>, u64)| p.0 == id).len()
}

/// The confirmation text a successful start returns.
pub open spec fn confirm_text(id: Seq<char>) -> Seq<char> {
    "Process "@ + id + " started successfully"@
}

impl Registry {
    /// The registered sessions, oldest first, as (identifier, handle) pairs.
    pub closed spec fn sessions(self) -> Seq<(Seq<char>, u64)> {
        self.entries@.map_values(|e: SessionEntry| (e.id@, e.slot))
    }

    /// Whether a session with the identifier is registered.
    pub open spec fn contains_id(self, id: Seq<char>) -> bool {
        exists|i: int| 0 <= i < self.sessions().len() && self.sessions()[i].0 == id
    }

    /// Identifiers are unique: a duplicate start is refused, never merged.
    pub open spec fn wf(self) -> bool {
        forall|i: int, j: int|
            0 <= i < j < self.sessions().len() ==> self.sessions()[i].0 != self.sessions()[j].0
    }

    /// An empty registry: no session is registered.
    pub fn new() -> (r: Registry)
        ensures
            r.sessions() =~= Seq::<(Seq<char>, u64)>::empty(),
            r.wf(),
    {
        Registry { entries: Vec::new() }
    }

    /// Whether the identifier is already taken, decided against the current
    /// state of the mapping.
    pub fn contains(&self, id: &String) -> (b: bool)
        ensures
            b == self.contains_id(id@),
    {
        let mut i: usize = 0;
        while i < self.entries.len()
            invariant
                0 <= i <= self.entries.len(),
                forall|j: int| 0 <= j < i ==> self.sessions()[j].0 != id@,
            decreases self.entries.len() - i,
        {
            if self.entries[i].id == *id {
                proof {
                    assert(self.sessions()[i as int].0 == id@);
                }
                return true;
            }
            i += 1;
        }
        false
    }

    /// Registers a new session. The duplicate check and the insertion run
    /// against the same state — the host holds the registry lock from the
    /// check through the insertion, so no two starts with one identifier can
    /// both succeed. `spawn` is the outcome the host observed when it
    /// created the process: on failure nothing is registered and the start
    /// fails with `SpawnFailure`; on success the session is appended and a
    /// confirmation text is returned.
    pub fn install(&mut self, id: String, spawn: Result<u64, String>) -> (r: Result<
        String,
        SessionError,
    >)
        requires
            old(self).wf(),
        ensures
            final(self).wf(),
            old(self).contains_id(id@) ==> (r == Err::<String, SessionError>(
                SessionError::DuplicateSession,
            ) && *final(self) == *old(self)),
            !old(self).contains_id(id@) ==> match spawn {
                Err(m) => (r matches Err(se) && se == SessionError::SpawnFailure(m))
                    && *final(self) == *old(self),
                Ok(slot) => final(self).sessions() =~= old(self).sessions().push((id@, slot)) && (
                r matches Ok(msg) && msg@ == confirm_text(id@)),
            },
    {
        if self.contains(&id) {
            return Err(SessionError::DuplicateSession);
        }
        match spawn {
            Err(m) => Err(SessionError::SpawnFailure(m)),
            Ok(slot) => {
                let ghost idv = id@;
                let mut msg = String::from_str("Process ");
                msg.append(id.as_str());
                msg.append(" started successfully");
                self.entries.push(SessionEntry { id, slot });
                proof {
                    assert(self.sessions() =~= old(self).sessions().push((idv, slot)));
                }
                Ok(msg)
            },
        }
    }

    /// Finds the handle of the session registered under the identifier; a
    /// send to an identifier that was never started (or was since removed)
    /// fails with `SessionNotFound`.
    pub fn lookup_slot(&self, id: &String) -> (r: Result<u64, SessionError>)
        ensures
            !self.contains_id(id@) ==> r == Err::<u64, SessionError>(SessionError::SessionNotFound),
            self.contains_id(id@) ==> (r matches Ok(slot) && exists|i: int|
                0 <= i < self.sessions().len() && self.sessions()[i] == (id@, slot)),
    {
        let mut i: usize = 0;
        while i < self.entries.len()
            invariant
                0 <= i <= self.entries.len(),
                forall|j: int| 0 <= j < i ==> self.sessions()[j].0 != id@,
            decreases self.entries.len() - i,
        {
            if self.entries[i].id == *id {
                let s = self.entries[i].slot;
                proof {
                    assert(self.sessions()[i as int] == (id@, s));
                }
                return Ok(s);
            }
            i += 1;
        }
        Err(SessionError::SessionNotFound)
    }
}

/// A sequence of sessions none of which bears the identifier counts it zero
/// times.
proof fn lemma_id_count_absent(s: Seq<(Seq<char>, u64)>, id: Seq<char>)
    requires
        forall|i: int| 0 <= i < s.len() ==> s[i].0 != id,
    ensures
        id_count(s, id) == 0,
    decreases s.len(),
{
    reveal(Seq::filter);
    if s.len() > 0 {
        lemma_id_count_absent(s.drop_last(), id);
    }
}

/// Starting two sessions with the same identifier: after the first start
/// succeeds, exactly one registered session bears the identifier, so the
/// second start finds it present and `install` refuses it with
/// `DuplicateSession`, leaving the registry unchanged.
pub proof fn lemma_duplicate_start(pre: Registry, post: Registry, id: Seq<char>, slot: u64)
    requires
        pre.wf(),
        !pre.contains_id(id),
        post.sessions() == pre.sessions().push((id, slot)),
    ensures
        post.contains_id(id),
        id_count(post.sessions(), id) == 1,
{
    assert(post.sessions()[pre.sessions().len() as int].0 == id);
    assert forall|i: int| 0 <= i < pre.sessions().len() implies pre.sessions()[i].0 != id by {
        if pre.sessions()[i].0 == id {
            assert(pre.contains_id(id));
        }
    }
    lemma_id_count_absent(pre.sessions(), id);
    reveal(Seq::filter);
    assert(post.sessions().drop_last() =~= pre.sessions());
    assert(post.sessions().last() == (id, slot));
}

} // verus!
