//! Manager of named interactive sessions.
//!
//! The manager decides which sessions exist: it enforces unique IDs and the
//! session cap. The shells and PTYs themselves live outside the library,
//! keyed by the same IDs; liveness is observed there and handed in as plain
//! booleans.

use vstd::prelude::*;
use vstd::string::StringExecFns;
use crate::session::SessionInfo;

verus! {

/// Maximum number of concurrent sessions.
pub const MAX_SESSIONS: usize = 10;

/// Index of the given ID, or -1.
pub open spec fn spec_find_id(ids: Seq<String>, id: Seq<char>) -> int
    decreases ids.len(),
{
    if ids.len() == 0 {
        -1
    } else if ids[0]@ == id {
        0
    } else {
        let r = spec_find_id(ids.drop_first(), id);
        if r < 0 {
            -1
        } else {
            1 + r
        }
    }
}

/// A first match pins down `spec_find_id`.
proof fn lemma_find_id_index(ids: Seq<String>, id: Seq<char>, k: int)
    requires
        0 <= k < ids.len(),
        ids[k]@ == id,
        forall|j: int| 0 <= j < k ==> ids[j]@ != id,
    ensures
        spec_find_id(ids, id) == k,
    decreases ids.len(),
{
    if k > 0 {
        lemma_find_id_index(ids.drop_first(), id, k - 1);
    }
}

/// With the ID absent, `spec_find_id` is -1.
proof fn lemma_find_id_none(ids: Seq<String>, id: Seq<char>)
    requires
        forall|j: int| 0 <= j < ids.len() ==> ids[j]@ != id,
    ensures
        spec_find_id(ids, id) == -1,
    decreases ids.len(),
{
    if ids.len() > 0 {
        lemma_find_id_none(ids.drop_first(), id);
    }
}

/// The registry of live sessions, by ID (the map logic; callers keep the
/// shells themselves beside it, under the same IDs).
pub struct SessionManager {
    /// The session IDs, in creation order, pairwise distinct.
    pub ids: Vec<String>,
}

impl SessionManager {
    /// The manager's invariant: IDs are unique and no more than the cap of
    /// sessions exist.
    pub open spec fn wf(&self) -> bool {
        &&& forall|a: int, b: int| 0 <= a < b < self.ids@.len() ==> self.ids@[a]@ != self.ids@[b]@
        &&& self.ids@.len() <= MAX_SESSIONS as int
    }

    /// Create a new session manager.
    pub fn new() -> (r: SessionManager)
        ensures
            r.ids@ == Seq::<String>::empty(),
            r.wf(),
    {
        let r = SessionManager { ids: Vec::new() };
        proof {
            assert(r.ids@ =~= Seq::<String>::empty());
        }
        r
    }

    /// Position of the given ID, if present.
    fn find_id(&self, id: &str) -> (r: Option<usize>)
        ensures
            match r {
                Some(k) => spec_find_id(self.ids@, id@) == k as int && k < self.ids@.len()
                    && self.ids@[k as int]@ == id@,
                None => spec_find_id(self.ids@, id@) == -1 && forall|j: int|
                    0 <= j < self.ids@.len() ==> self.ids@[j]@ != id@,
            },
    {
        let id_string = id.to_owned();
        let mut k: usize = 0;
        while k < self.ids.len()
            invariant
                k <= self.ids@.len(),
                id_string@ == id@,
                forall|j: int| 0 <= j < k ==> self.ids@[j]@ != id@,
            decreases self.ids@.len() - k,
        {
            if self.ids[k].eq(&id_string) {
                proof {
                    lemma_find_id_index(self.ids@, id@, k as int);
                }
                return Some(k);
            }
            k += 1;
        }
        proof {
            lemma_find_id_none(self.ids@, id@);
        }
        None
    }

    /// Whether a session with the given ID exists.
    pub fn contains(&self, id: &str) -> (r: bool)
        ensures
            r == (spec_find_id(self.ids@, id@) >= 0),
    {
        match self.find_id(id) {
            Some(_) => true,
            None => false,
        }
    }

    /// Number of sessions.
    pub fn len(&self) -> (n: usize)
        ensures
            n == self.ids@.len(),
    {
        self.ids.len()
    }

    /// Register a new session: the ID must be fresh and the cap not yet
    /// reached.
    pub fn create(&mut self, id: String) -> (r: Result<SessionInfo, String>)
        requires
            old(self).wf(),
        ensures
            final(self).wf(),
            ({
                let k = spec_find_id(old(self).ids@, id@);
                &&& (k >= 0 ==> r is Err && final(self).ids@ == old(self).ids@ && r->Err_0@
                    == "session '"@ + id@ + "' already exists"@)
                &&& (k < 0 && old(self).ids@.len() >= MAX_SESSIONS as int ==> r is Err && final(self).ids@ == old(self).ids@ && r->Err_0@
                    == "too many sessions (10/10). Close some sessions first."@)
                &&& (k < 0 && old(self).ids@.len() < MAX_SESSIONS as int ==> r is Ok && final(self).ids@ == old(self).ids@.push(id) && r->Ok_0.id == id && r->Ok_0.alive)
            }),
    {
        if let Some(_) = self.find_id(id.as_str()) {
            let mut m = String::new();
            m.append("session '");
            m.append(id.as_str());
            m.append("' already exists");
            proof {
                assert(m@ =~= "session '"@ + id@ + "' already exists"@);
            }
            return Err(m);
        }
        if self.ids.len() >= MAX_SESSIONS {
            let mut m = String::new();
            m.append("too many sessions (10/10). Close some sessions first.");
            proof {
                assert(m@ =~= "too many sessions (10/10). Close some sessions first."@);
            }
            return Err(m);
        }
        let info_id = id.clone();
        self.ids.push(id);
        Ok(SessionInfo { id: info_id, alive: true })
    }

    /// Remove a session's registration.
    pub fn remove(&mut self, id: &str) -> (r: Result<(), String>)
        requires
            old(self).wf(),
        ensures
            final(self).wf(),
            ({
                let k = spec_find_id(old(self).ids@, id@);
                &&& (k < 0 ==> r is Err && final(self).ids@ == old(self).ids@ && r->Err_0@
                    == "no session with id '"@ + id@ + "'"@)
                &&& (k >= 0 ==> r is Ok && final(self).ids@ == old(self).ids@.remove(k))
            }),
    {
        match self.find_id(id) {
            None => {
                let mut m = String::new();
                m.append("no session with id '");
                m.append(id);
                m.append("'");
                proof {
                    assert(m@ =~= "no session with id '"@ + id@ + "'"@);
                }
                Err(m)
            },
            Some(k) => {
                let _ = self.ids.remove(k);
                Ok(())
            },
        }
    }

    /// One info record per session, in order, with the given liveness
    /// flags.
    pub fn list_infos(&self, alive: &Vec<bool>) -> (r: Vec<SessionInfo>)
        requires
            alive@.len() == self.ids@.len(),
        ensures
            r@.len() == self.ids@.len(),
            forall|k: int|
                0 <= k < r@.len() ==> (#[trigger] r@[k]).id@ == self.ids@[k]@ && r@[k].alive
                    == alive@[k],
    {
        let mut r: Vec<SessionInfo> = Vec::new();
        let mut i: usize = 0;
        while i < self.ids.len()
            invariant
                i <= self.ids@.len(),
                alive@.len() == self.ids@.len(),
                r@.len() == i,
                forall|k: int|
                    0 <= k < i ==> (#[trigger] r@[k]).id@ == self.ids@[k]@ && r@[k].alive
                        == alive@[k],
            decreases self.ids@.len() - i,
        {
            r.push(SessionInfo { id: self.ids[i].clone(), alive: alive[i] });
            i += 1;
        }
        r
    }
}

} // verus!
