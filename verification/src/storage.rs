//! Session storage: the logical content of every session — its
//! chunks, its payloads keyed by row identifier, and its summary —
//! under one namespace per session identifier, plus the ingestion
//! driver that fills a session from a normalized batch.
//!
//! This is the store's semantics; persisting the same artifacts to
//! disk is the surrounding service's concern and changes nothing here.

use crate::columnar::{ArrowBuilder, MetaCollector};
use crate::models::{ConvertedMessage, SessionMeta};
use crate::text::str_eq;
use vstd::prelude::*;

verus! {

/// Storage-layer errors.
#[derive(Debug)]
pub enum StoreError {
    /// No session under that identifier.
    SessionNotFound,
    /// The session has no payload under that row identifier.
    PayloadNotFound,
    /// The storage namespace could not be set up.
    IoFailure,
}

/// One session's stored content.
#[derive(Debug)]
pub struct SessionData {
    pub chunks: Vec<ArrowBuilder>,
    pub payloads: Vec<(u32, String)>,
    pub meta: Option<SessionMeta>,
}

impl SessionData {
    /// Chunks are well-formed columns; payload keys are unique.
    pub open spec fn wf(&self) -> bool {
        &&& forall|i: int| 0 <= i < self.chunks@.len() ==> (#[trigger] self.chunks@[i]).wf()
        &&& forall|i: int, j: int|
            0 <= i < j < self.payloads@.len() ==> (#[trigger] self.payloads@[i]).0 != (
            #[trigger] self.payloads@[j]).0
    }

    /// Whether a payload is stored under this row identifier.
    pub open spec fn has_payload(&self, rid: u32) -> bool {
        exists|k: int| 0 <= k < self.payloads@.len() && (#[trigger] self.payloads@[k]).0 == rid
    }

    /// The payload text stored under this row identifier.
    pub open spec fn payload_at(&self, rid: u32) -> Seq<char> {
        self.payloads@[choose|k: int|
            0 <= k < self.payloads@.len() && (#[trigger] self.payloads@[k]).0 == rid].1@
    }

    /// An empty session.
    pub fn new() -> (r: Self)
        ensures
            r.wf(),
            r.chunks@.len() == 0,
            r.payloads@.len() == 0,
            r.meta is None,
    {
        SessionData { chunks: Vec::new(), payloads: Vec::new(), meta: Option::None }
    }
}

/// With unique keys, any index holding `rid` yields the same payload.
pub proof fn lemma_payload_at(sd: &SessionData, rid: u32, k: int)
    requires
        sd.wf(),
        0 <= k < sd.payloads@.len(),
        sd.payloads@[k].0 == rid,
    ensures
        sd.has_payload(rid),
        sd.payload_at(rid) == sd.payloads@[k].1@,
{
    let w = choose|j: int| 0 <= j < sd.payloads@.len() && (#[trigger] sd.payloads@[j]).0 == rid;
    assert(w == k);
}

/// The session store: a base path for the on-disk namespace and the
/// sessions, each under a unique identifier.
#[derive(Debug)]
pub struct SessionStorage {
    pub base_path: String,
    pub sessions: Vec<(String, SessionData)>,
}

/// A fresh copy of a vector of plain values.
fn copy_vec<T: Copy>(v: &Vec<T>) -> (r: Vec<T>)
    ensures
        r@ == v@,
{
    let n = v.len();
    let mut r: Vec<T> = Vec::new();
    let mut i: usize = 0;
    while i < n
        invariant
            0 <= i <= n == v@.len(),
            r@ == v@.subrange(0, i as int),
        decreases n - i,
    {
        r.push(v[i]);
        proof {
            assert(r@ =~= v@.subrange(0, i + 1 as int));
        }
        i = i + 1;
    }
    proof {
        assert(r@ =~= v@);
    }
    r
}

/// A fresh copy of a session summary.
fn copy_meta(m: &SessionMeta) -> (r: SessionMeta)
    ensures
        r@ == m@,
{
    SessionMeta {
        row_count: m.row_count,
        t_min_ns: m.t_min_ns,
        t_max_ns: m.t_max_ns,
        distinct_s: copy_vec(&m.distinct_s),
        distinct_f: copy_vec(&m.distinct_f),
        distinct_ceid: copy_vec(&m.distinct_ceid),
        distinct_vid: copy_vec(&m.distinct_vid),
        distinct_rptid: copy_vec(&m.distinct_rptid),
    }
}

/// Relies on `uuid::Uuid::new_v4` and its `Display`: a random
/// identifier in the hyphenated format, which is 36 characters long.
/// Nothing is assumed about which identifier comes back.
#[verifier::external_body]
fn fresh_session_id() -> (r: String)
    ensures
        r@.len() == 36,
{
    uuid::Uuid::new_v4().to_string()
}

impl SessionStorage {
    /// Session identifiers are unique and every session well-formed.
    pub open spec fn wf(&self) -> bool {
        &&& forall|i: int, j: int|
            0 <= i < j < self.sessions@.len() ==> (#[trigger] self.sessions@[i]).0@ != (
            #[trigger] self.sessions@[j]).0@
        &&& forall|i: int| 0 <= i < self.sessions@.len() ==> (#[trigger] self.sessions@[i]).1.wf()
    }

    /// Whether a session exists under this identifier.
    pub open spec fn has_session(&self, id: Seq<char>) -> bool {
        exists|k: int| 0 <= k < self.sessions@.len() && (#[trigger] self.sessions@[k]).0@ == id
    }

    /// The session stored under this identifier.
    pub open spec fn session_at(&self, id: Seq<char>) -> SessionData {
        self.sessions@[choose|k: int|
            0 <= k < self.sessions@.len() && (#[trigger] self.sessions@[k]).0@ == id].1
    }

    /// A store rooted at the given base path, with no sessions.
    pub fn new(base_path: String) -> (r: Self)
        ensures
            r.wf(),
            r.sessions@.len() == 0,
            r.base_path == base_path,
    {
        SessionStorage { base_path, sessions: Vec::new() }
    }

    /// Index of the session with this identifier.
    fn find_session(&self, session_id: &str) -> (r: Option<usize>)
        ensures
            match r {
                Option::Some(k) => k < self.sessions@.len() && self.sessions@[k as int].0@
                    == session_id@,
                Option::None => !self.has_session(session_id@),
            },
    {
        let n = self.sessions.len();
        let mut i: usize = 0;
        while i < n
            invariant
                0 <= i <= n == self.sessions@.len(),
                forall|k: int| 0 <= k < i ==> (#[trigger] self.sessions@[k]).0@ != session_id@,
            decreases n - i,
        {
            if str_eq(self.sessions[i].0.as_str(), session_id) {
                return Option::Some(i);
            }
            i = i + 1;
        }
        Option::None
    }

    /// With unique identifiers, the found index is the session.
    proof fn lemma_session_at(&self, id: Seq<char>, k: int)
        requires
            self.wf(),
            0 <= k < self.sessions@.len(),
            self.sessions@[k].0@ == id,
        ensures
            self.has_session(id),
            self.session_at(id) == self.sessions@[k].1,
    {
        let w = choose|j: int|
            0 <= j < self.sessions@.len() && (#[trigger] self.sessions@[j]).0@ == id;
        assert(w == k);
    }

    /// Registers a fresh, empty session under the given identifier;
    /// fails exactly when the identifier is already taken.
    fn insert_fresh(&mut self, id: String) -> (r: Result<(), StoreError>)
        requires
            old(self).wf(),
        ensures
            final(self).wf(),
            final(self).base_path == old(self).base_path,
            (r is Ok) == !old(self).has_session(id@),
            r is Err ==> *final(self) == *old(self) && r matches Err(StoreError::IoFailure),
            r is Ok ==> {
                &&& final(self).has_session(id@)
                &&& final(self).session_at(id@).chunks@.len() == 0
                &&& final(self).session_at(id@).payloads@.len() == 0
                &&& final(self).session_at(id@).meta is None
                &&& forall|q: Seq<char>|
                    q != id@ ==> (final(self).has_session(q) == old(self).has_session(q))
                &&& forall|q: Seq<char>|
                    q != id@ && old(self).has_session(q) ==> final(self).session_at(q) == old(
                        self,
                    ).session_at(q)
            },
    {
        match self.find_session(id.as_str()) {
            Option::Some(k) => {
                proof {
                    self.lemma_session_at(id@, k as int);
                }
                Result::Err(StoreError::IoFailure)
            },
            Option::None => {
                let ghost before = self.sessions@;
                self.sessions.push((id, SessionData::new()));
                proof {
                    let n = before.len() as int;
                    assert(forall|k: int| 0 <= k < n ==> self.sessions@[k] == before[k]);
                    self.lemma_session_at(self.sessions@[n].0@, n);
                    assert(forall|q: Seq<char>|
                        q != self.sessions@[n].0@ && old(self).has_session(q) ==> {
                            let w = choose|j: int|
                                0 <= j < before.len() && (#[trigger] before[j]).0@ == q;
                            self.has_session(q) && self.session_at(q) == before[w].1
                        });
                }
                Result::Ok(())
            },
        }
    }

    /// Creates a fresh, empty session under a newly drawn identifier
    /// and returns that identifier. The store fails only when the
    /// drawn identifier is already taken, which an identifier of any
    /// other length than the drawn 36 characters can never be: in
    /// particular, creation on an empty store always succeeds.
    pub fn create_session(&mut self) -> (r: Result<String, StoreError>)
        requires
            old(self).wf(),
        ensures
            final(self).wf(),
            final(self).base_path == old(self).base_path,
            old(self).sessions@.len() == 0 ==> r is Ok,
            (forall|k: int|
                0 <= k < old(self).sessions@.len() ==> (#[trigger] old(
                    self,
                ).sessions@[k]).0@.len() != 36) ==> r is Ok,
            r matches Ok(id) ==> {
                &&& id@.len() == 36
                &&& !old(self).has_session(id@)
                &&& final(self).has_session(id@)
                &&& final(self).session_at(id@).chunks@.len() == 0
                &&& final(self).session_at(id@).payloads@.len() == 0
                &&& final(self).session_at(id@).meta is None
                &&& forall|q: Seq<char>|
                    q != id@ ==> (final(self).has_session(q) == old(self).has_session(q))
                &&& forall|q: Seq<char>|
                    q != id@ && old(self).has_session(q) ==> final(self).session_at(q) == old(
                        self,
                    ).session_at(q)
            },
            r is Err ==> *final(self) == *old(self) && r matches Err(StoreError::IoFailure),
    {
        let id = fresh_session_id();
        let id_copy = String::from_str(id.as_str());
        match self.insert_fresh(id_copy) {
            Result::Ok(_) => Result::Ok(id),
            Result::Err(e) => {
                // The drawn identifier collided with a stored one, so
                // some stored identifier has its 36-character length.
                proof {
                    assert(old(self).has_session(id@));
                    let w = choose|j: int|
                        0 <= j < old(self).sessions@.len() && (#[trigger] old(
                            self,
                        ).sessions@[j]).0@ == id@;
                    assert(old(self).sessions@[w].0@.len() == 36);
                }
                Result::Err(e)
            },
        }
    }

    /// The session's namespace: the base path, a separator, and the
    /// The session's namespace: the base path, a separator, and the
    /// session identifier.
    pub fn session_path(&self, session_id: &str) -> (r: String)
        ensures
            r@ == self.base_path@ + "/"@ + session_id@,
    {
        let mut p = self.base_path.clone();
        p.append("/");
        p.append(session_id);
        p
    }

    /// Removes the session's content as a unit; removing an absent
    /// session is not an error.
    pub fn delete_session(&mut self, session_id: &str) -> (r: Result<(), StoreError>)
        requires
            old(self).wf(),
        ensures
            final(self).wf(),
            final(self).base_path == old(self).base_path,
            r is Ok,
            !final(self).has_session(session_id@),
            forall|q: Seq<char>|
                q != session_id@ ==> (final(self).has_session(q) == old(self).has_session(q)),
            forall|q: Seq<char>|
                q != session_id@ && old(self).has_session(q) ==> final(self).session_at(q) == old(self).session_at(q),
    {
        let ghost before = self.sessions@;
        match self.find_session(session_id) {
            Option::None => {
                proof {
                    assert(!self.has_session(session_id@));
                }
                Result::Ok(())
            },
            Option::Some(k) => {
                self.sessions.remove(k);
                proof {
                    assert(forall|j: int|
                        0 <= j < self.sessions@.len() ==> self.sessions@[j] == before[
                            if j < k {
                                j
                            } else {
                                j + 1
                            }
                        ]);
                    assert forall|q: Seq<char>|
                        q != session_id@ && old(self).has_session(q) implies final(self).has_session(q) && final(self).session_at(q) == old(self).session_at(q) by {
                        let w = choose|j: int|
                            0 <= j < before.len() && (#[trigger] before[j]).0@ == q;
                        assert(w != k);
                        let w2: int = if w < k {
                            w
                        } else {
                            w - 1
                        };
                        assert(self.sessions@[w2] == before[w]);
                        self.lemma_session_at(q, w2);
                        old(self).lemma_session_at(q, w);
                    }
                }
                Result::Ok(())
            },
        }
    }

    /// Stores the session's summary, replacing any earlier one; fails
    /// exactly when the session does not exist.
    pub fn write_meta(&mut self, session_id: &str, meta: &SessionMeta) -> (r: Result<
        (),
        StoreError,
    >)
        requires
            old(self).wf(),
        ensures
            final(self).wf(),
            final(self).base_path == old(self).base_path,
            (r is Ok) == old(self).has_session(session_id@),
            r is Err ==> *final(self) == *old(self) && r matches Err(StoreError::SessionNotFound),
            r is Ok ==> {
                &&& final(self).has_session(session_id@)
                &&& final(self).session_at(session_id@).meta matches Some(m) && m@ == meta@
                &&& final(self).session_at(session_id@).chunks == old(self).session_at(
                    session_id@,
                ).chunks
                &&& final(self).session_at(session_id@).payloads == old(self).session_at(
                    session_id@,
                ).payloads
                &&& forall|q: Seq<char>|
                    q != session_id@ ==> (final(self).has_session(q) == old(self).has_session(q))
                &&& forall|q: Seq<char>|
                    q != session_id@ && old(self).has_session(q) ==> final(self).session_at(q)
                        == old(self).session_at(q)
            },
    {
        let ghost before = self.sessions@;
        let k = match self.find_session(session_id) {
            Option::Some(k) => k,
            Option::None => {
                return Result::Err(StoreError::SessionNotFound);
            },
        };
        proof {
            self.lemma_session_at(session_id@, k as int);
        }
        let (id, mut sd) = self.sessions.remove(k);
        sd.meta = Option::Some(copy_meta(meta));
        self.sessions.insert(k, (id, sd));
        proof {
            assert(self.sessions@.len() == before.len());
            assert(forall|j: int|
                0 <= j < before.len() && j != k ==> self.sessions@[j] == before[j]);
            assert(self.sessions@[k as int].0 == before[k as int].0);
            self.lemma_session_at(session_id@, k as int);
            assert forall|q: Seq<char>|
                q != session_id@ && old(self).has_session(q) implies final(self).has_session(q)
                && final(self).session_at(q) == old(self).session_at(q) by {
                let w = choose|j: int| 0 <= j < before.len() && (#[trigger] before[j]).0@ == q;
                assert(w != k);
                assert(self.sessions@[w] == before[w]);
                self.lemma_session_at(q, w);
                old(self).lemma_session_at(q, w);
            }
        }
        Result::Ok(())
    }

    /// Everything a summary read promises: success exactly when the
    /// session exists and has a summary, the summary's value on
    /// success, and `SessionNotFound` otherwise.
    pub open spec fn read_meta_post(
        &self,
        id: Seq<char>,
        r: Result<SessionMeta, StoreError>,
    ) -> bool {
        &&& (r is Ok) == (self.has_session(id) && self.session_at(id).meta is Some)
        &&& (r matches Ok(m) ==> self.session_at(id).meta matches Some(sm) && m@ == sm@)
        &&& (r is Err ==> r matches Err(StoreError::SessionNotFound))
    }

    /// Reads the session's summary back; `SessionNotFound` exactly
    /// when the session does not exist or has no summary yet.
    pub fn read_meta(&self, session_id: &str) -> (r: Result<SessionMeta, StoreError>)
        requires
            self.wf(),
        ensures
            self.read_meta_post(session_id@, r),
    {
        let k = match self.find_session(session_id) {
            Option::Some(k) => k,
            Option::None => {
                return Result::Err(StoreError::SessionNotFound);
            },
        };
        proof {
            self.lemma_session_at(session_id@, k as int);
        }
        match &self.sessions[k].1.meta {
            Option::Some(m) => Result::Ok(copy_meta(m)),
            Option::None => Result::Err(StoreError::SessionNotFound),
        }
    }

    /// Stores one row's payload text, replacing any earlier text under
    /// the same row identifier; fails exactly when the session does
    /// not exist.
    pub fn write_payload(&mut self, session_id: &str, row_id: u32, body_json: &str) -> (r: Result<
        (),
        StoreError,
    >)
        requires
            old(self).wf(),
        ensures
            final(self).wf(),
            final(self).base_path == old(self).base_path,
            (r is Ok) == old(self).has_session(session_id@),
            r is Err ==> *final(self) == *old(self) && r matches Err(StoreError::SessionNotFound),
            r is Ok ==> ({
                let sd_new = final(self).session_at(session_id@);
                let sd_old = old(self).session_at(session_id@);
                &&& final(self).has_session(session_id@)
                &&& sd_new.has_payload(row_id)
                &&& sd_new.payload_at(row_id) == body_json@
                &&& forall|q: u32| q != row_id ==> (sd_new.has_payload(q) == sd_old.has_payload(q))
                &&& forall|q: u32|
                    q != row_id && sd_old.has_payload(q) ==> sd_new.payload_at(q)
                        == sd_old.payload_at(q)
                &&& sd_new.chunks == sd_old.chunks
                &&& sd_new.meta == sd_old.meta
                &&& forall|q: Seq<char>|
                    q != session_id@ ==> (final(self).has_session(q) == old(self).has_session(q))
                &&& forall|q: Seq<char>|
                    q != session_id@ && old(self).has_session(q) ==> final(self).session_at(q)
                        == old(self).session_at(q)
            }),
    {
        let ghost before = self.sessions@;
        let k = match self.find_session(session_id) {
            Option::Some(k) => k,
            Option::None => {
                return Result::Err(StoreError::SessionNotFound);
            },
        };
        proof {
            self.lemma_session_at(session_id@, k as int);
        }
        let (id, mut sd) = self.sessions.remove(k);
        put_payload(&mut sd, row_id, body_json);
        self.sessions.insert(k, (id, sd));
        proof {
            assert(forall|j: int|
                0 <= j < before.len() && j != k ==> self.sessions@[j] == before[j]);
            self.lemma_session_at(session_id@, k as int);
            assert forall|q: Seq<char>|
                q != session_id@ && old(self).has_session(q) implies final(self).has_session(q)
                && final(self).session_at(q) == old(self).session_at(q) by {
                let w = choose|j: int| 0 <= j < before.len() && (#[trigger] before[j]).0@ == q;
                assert(w != k);
                assert(self.sessions@[w] == before[w]);
                self.lemma_session_at(q, w);
                old(self).lemma_session_at(q, w);
            }
        }
        Result::Ok(())
    }

    /// Everything a payload read promises: success exactly when the
    /// session exists and holds the row's payload, the stored text on
    /// success, and a missing session told apart from a missing
    /// payload on failure.
    pub open spec fn read_payload_post(
        &self,
        id: Seq<char>,
        row_id: u32,
        r: Result<String, StoreError>,
    ) -> bool {
        &&& (r is Ok) == (self.has_session(id) && self.session_at(id).has_payload(row_id))
        &&& (r matches Ok(b) ==> b@ == self.session_at(id).payload_at(row_id))
        &&& (r matches Err(StoreError::SessionNotFound) ==> !self.has_session(id))
        &&& (r matches Err(StoreError::PayloadNotFound) ==> self.has_session(id)
            && !self.session_at(id).has_payload(row_id))
        &&& (r is Err ==> (r matches Err(StoreError::SessionNotFound) || r matches Err(
            StoreError::PayloadNotFound,
        )))
    }

    /// Reads one row's payload text back, telling a missing session
    /// apart from a missing payload.
    pub fn read_payload(&self, session_id: &str, row_id: u32) -> (r: Result<String, StoreError>)
        requires
            self.wf(),
        ensures
            self.read_payload_post(session_id@, row_id, r),
    {
        let k = match self.find_session(session_id) {
            Option::Some(k) => k,
            Option::None => {
                return Result::Err(StoreError::SessionNotFound);
            },
        };
        proof {
            self.lemma_session_at(session_id@, k as int);
        }
        let sd = &self.sessions[k].1;
        let n = sd.payloads.len();
        let mut i: usize = 0;
        while i < n
            invariant
                0 <= i <= n == sd.payloads@.len(),
                forall|j: int| 0 <= j < i ==> (#[trigger] sd.payloads@[j]).0 != row_id,
                sd == &self.sessions@[k as int].1,
                self.wf(),
                k < self.sessions@.len(),
                self.sessions@[k as int].0@ == session_id@,
            decreases n - i,
        {
            if sd.payloads[i].0 == row_id {
                proof {
                    lemma_payload_at(sd, row_id, i as int);
                }
                return Result::Ok(String::from_str(sd.payloads[i].1.as_str()));
            }
            i = i + 1;
        }
        Result::Err(StoreError::PayloadNotFound)
    }

    /// Number of chunks a session holds, when it exists.
    pub fn chunk_count(&self, session_id: &str) -> (r: Option<usize>)
        requires
            self.wf(),
        ensures
            (r is Some) == self.has_session(session_id@),
            r matches Some(c) ==> c == self.session_at(session_id@).chunks@.len(),
    {
        match self.find_session(session_id) {
            Option::Some(k) => {
                proof {
                    self.lemma_session_at(session_id@, k as int);
                }
                Option::Some(self.sessions[k].1.chunks.len())
            },
            Option::None => Option::None,
        }
    }

    /// Borrows one chunk of a session.
    pub fn chunk_ref(&self, session_id: &str, c: usize) -> (r: &ArrowBuilder)
        requires
            self.wf(),
            self.has_session(session_id@),
            c < self.session_at(session_id@).chunks@.len(),
        ensures
            *r == self.session_at(session_id@).chunks@[c as int],
            r.wf(),
    {
        let k = self.find_session(session_id).unwrap();
        proof {
            self.lemma_session_at(session_id@, k as int);
        }
        &self.sessions[k].1.chunks[c]
    }

    /// The file path of one chunk of a session.
    pub fn chunk_path(&self, session_id: &str, chunk_idx: usize) -> (r: String)
        ensures
            r@ == spec_chunk_path(self.base_path@, session_id@, chunk_idx as int),
    {
        let mut p = self.session_path(session_id);
        p.append("/chunks/");
        if chunk_idx < 10 {
            p.append("00");
        } else if chunk_idx < 100 {
            p.append("0");
        }
        push_dec(chunk_idx, &mut p);
        p.append(".arrow");
        proof {
            reveal_strlit("00");
            reveal_strlit("0");
            assert(p@ =~= spec_chunk_path(self.base_path@, session_id@, chunk_idx as int));
        }
        p
    }

    /// The paths of a session's chunks, in ascending chunk order, so
    /// record order across chunks matches ingestion order.
    pub fn list_chunks(&self, session_id: &str) -> (r: Result<Vec<String>, StoreError>)
        requires
            self.wf(),
        ensures
            (r is Ok) == self.has_session(session_id@),
            r is Err ==> r matches Err(StoreError::SessionNotFound),
            r matches Ok(v) ==> {
                &&& v@.len() == self.session_at(session_id@).chunks@.len()
                &&& forall|i: int|
                    0 <= i < v@.len() ==> (#[trigger] v@[i])@ == spec_chunk_path(
                        self.base_path@,
                        session_id@,
                        i,
                    )
            },
    {
        let k = match self.find_session(session_id) {
            Option::Some(k) => k,
            Option::None => {
                return Result::Err(StoreError::SessionNotFound);
            },
        };
        proof {
            self.lemma_session_at(session_id@, k as int);
        }
        let n = self.sessions[k].1.chunks.len();
        let mut v: Vec<String> = Vec::new();
        let mut i: usize = 0;
        while i < n
            invariant
                0 <= i <= n,
                v@.len() == i,
                forall|j: int|
                    0 <= j < i ==> (#[trigger] v@[j])@ == spec_chunk_path(
                        self.base_path@,
                        session_id@,
                        j,
                    ),
            decreases n - i,
        {
            let p = self.chunk_path(session_id, i);
            v.push(p);
            i = i + 1;
        }
        Result::Ok(v)
    }
}

/// Decimal digit characters of `n`, most significant first.
pub open spec fn dec_chars(n: int) -> Seq<char>
    decreases n,
{
    if n < 10 {
        seq![(((48 + if n >= 0 { n } else { 0 }) as u8) as char)]
    } else {
        dec_chars(n / 10).push(((48 + n % 10) as u8) as char)
    }
}

/// Chunk sequence number, zero-padded to three digits (wider numbers
/// are not truncated).
pub open spec fn pad3(n: int) -> Seq<char> {
    if n < 10 {
        seq!['0', '0'] + dec_chars(n)
    } else if n < 100 {
        seq!['0'] + dec_chars(n)
    } else {
        dec_chars(n)
    }
}

/// The file path of one chunk within a session's namespace.
pub open spec fn spec_chunk_path(base: Seq<char>, id: Seq<char>, i: int) -> Seq<char> {
    base + "/"@ + id + "/chunks/"@ + pad3(i) + ".arrow"@
}

/// Relies on `String::push`: appends exactly one character.
#[verifier::external_body]
fn push_char(s: &mut String, c: char)
    ensures
        final(s)@ == old(s)@.push(c),
{
    s.push(c);
}

/// Appends the decimal digits of `n`.
fn push_dec(n: usize, out: &mut String)
    ensures
        final(out)@ == old(out)@ + dec_chars(n as int),
    decreases n,
{
    if n < 10 {
        push_char(out, (48 + n as u8) as char);
        proof {
            assert(out@ =~= old(out)@ + dec_chars(n as int));
        }
    } else {
        push_dec(n / 10, out);
        push_char(out, (48 + (n % 10) as u8) as char);
        proof {
            assert(out@ =~= old(out)@ + dec_chars(n as int));
        }
    }
}

/// Smallest timestamp among the first `i` rows, seeded with the
/// sentinel maximum.
pub open spec fn min_ts(ms: Seq<ConvertedMessage>, i: int) -> int
    decreases i,
{
    if i <= 0 {
        i64::MAX as int
    } else {
        let p = min_ts(ms, i - 1);
        if (ms[i - 1].ts_ns as int) < p {
            ms[i - 1].ts_ns as int
        } else {
            p
        }
    }
}

/// Largest timestamp among the first `i` rows, seeded with the
/// sentinel minimum.
pub open spec fn max_ts(ms: Seq<ConvertedMessage>, i: int) -> int
    decreases i,
{
    if i <= 0 {
        i64::MIN as int
    } else {
        let p = max_ts(ms, i - 1);
        if (ms[i - 1].ts_ns as int) > p {
            ms[i - 1].ts_ns as int
        } else {
            p
        }
    }
}

/// Inserts or replaces one payload in a session.
fn put_payload(sd: &mut SessionData, row_id: u32, body_json: &str)
    requires
        old(sd).wf(),
    ensures
        final(sd).wf(),
        final(sd).chunks == old(sd).chunks,
        final(sd).meta == old(sd).meta,
        final(sd).has_payload(row_id),
        final(sd).payload_at(row_id) == body_json@,
        forall|q: u32| q != row_id ==> (final(sd).has_payload(q) == old(sd).has_payload(q)),
        forall|q: u32|
            q != row_id && old(sd).has_payload(q) ==> final(sd).payload_at(q) == old(sd).payload_at(q),
        final(sd).payloads@.len() <= old(sd).payloads@.len() + 1,
{
    let n = sd.payloads.len();
    let mut i: usize = 0;
    while i < n
        invariant
            0 <= i <= n == sd.payloads@.len(),
            forall|j: int| 0 <= j < i ==> (#[trigger] sd.payloads@[j]).0 != row_id,
            sd == old(sd),
            old(sd).wf(),
        decreases n - i,
    {
        if sd.payloads[i].0 == row_id {
            let owned = String::from_str(body_json);
            let _ = sd.payloads.remove(i);
            sd.payloads.insert(i, (row_id, owned));
            proof {
                let before = old(sd).payloads@;
                assert(sd.payloads@.len() == before.len());
                assert(forall|j: int|
                    0 <= j < before.len() && j != i ==> sd.payloads@[j] == before[j]);
                assert(sd.payloads@[i as int].0 == row_id);
                assert(sd.payloads@[i as int].1@ == body_json@);
                assert(forall|j: int|
                    0 <= j < sd.payloads@.len() ==> (#[trigger] sd.payloads@[j]).0 == before[j].0);
                assert(sd.wf());
                lemma_payload_at(sd, row_id, i as int);
                assert forall|q: u32| q != row_id && old(sd).has_payload(q) implies sd.has_payload(
                    q,
                ) && sd.payload_at(q) == old(sd).payload_at(q) by {
                    let w = choose|j: int| 0 <= j < before.len() && (#[trigger] before[j]).0 == q;
                    assert(w != i);
                    assert(sd.payloads@[w] == before[w]);
                    lemma_payload_at(sd, q, w);
                    lemma_payload_at(&old(sd), q, w);
                }
            }
            return ;
        }
        i = i + 1;
    }
    let owned = String::from_str(body_json);
    sd.payloads.push((row_id, owned));
    proof {
        let before = old(sd).payloads@;
        let n2 = before.len() as int;
        assert(forall|j: int| 0 <= j < n2 ==> sd.payloads@[j] == before[j]);
        assert(sd.payloads@[n2].0 == row_id);
        assert(sd.payloads@[n2].1@ == body_json@);
        assert(sd.wf());
        lemma_payload_at(sd, row_id, n2);
        assert forall|q: u32| q != row_id && old(sd).has_payload(q) implies sd.has_payload(q)
            && sd.payload_at(q) == old(sd).payload_at(q) by {
            let w = choose|j: int| 0 <= j < before.len() && (#[trigger] before[j]).0 == q;
            assert(sd.payloads@[w] == before[w]);
            lemma_payload_at(sd, q, w);
            lemma_payload_at(&old(sd), q, w);
        }
    }
}

/// Drives one session's ingestion: every row is folded into the
/// summary, its payload stored under its row identifier, and its
/// scalar columns pushed into the chunk buffer, which is cut into an
/// immutable chunk whenever it reaches `CHUNK_SIZE` rows; a final
/// partial chunk is cut at the end. Ingesting `50000 * k + r` rows
/// (`0 <= r < 50000`) therefore produces exactly `k` full chunks plus,
/// when `r > 0`, one trailing chunk of `r` rows — and none at all for
/// an empty batch.
///
/// The batch must carry distinct row identifiers and the session must
/// be freshly created (no chunks or payloads yet): sessions are
/// write-once.
#[verifier::rlimit(60)]
pub fn ingest_messages(
    storage: &mut SessionStorage,
    session_id: &str,
    messages: Vec<ConvertedMessage>,
) -> (r: Result<SessionMeta, StoreError>)
    requires
        old(storage).wf(),
        forall|i: int, j: int|
            0 <= i < j < messages@.len() ==> (#[trigger] messages@[i]).row_id != (
            #[trigger] messages@[j]).row_id,
        old(storage).has_session(session_id@) ==> {
            let sd = old(storage).session_at(session_id@);
            sd.chunks@.len() == 0 && sd.payloads@.len() == 0
        },
    ensures
        final(storage).wf(),
        final(storage).base_path == old(storage).base_path,
        (r is Ok) == old(storage).has_session(session_id@),
        r is Err ==> *final(storage) == *old(storage) && r matches Err(
            StoreError::SessionNotFound,
        ),
        r matches Ok(meta) ==> ({
            let ms = messages@;
            let n = ms.len() as int;
            let sd = final(storage).session_at(session_id@);
            &&& final(storage).has_session(session_id@)
            &&& sd.chunks@.len() == n / 50000 + if n % 50000 > 0 {
                1int
            } else {
                0int
            }
            &&& forall|c: int|
                0 <= c < n / 50000 ==> (#[trigger] sd.chunks@[c]).rows().len() == 50000
            &&& (n % 50000 > 0 ==> sd.chunks@[n / 50000].rows().len() == n % 50000)
            &&& forall|j: int|
                0 <= j < n ==> (#[trigger] sd.chunks@[j / 50000]).rows()[j % 50000] == ms[j]@.row()
            &&& forall|j: int|
                0 <= j < n ==> sd.has_payload((#[trigger] ms[j]).row_id) && sd.payload_at(
                    ms[j].row_id,
                ) == ms[j].body_json@
            &&& sd.meta matches Some(m) && m@ == meta@
            &&& meta@.row_count == n
            &&& meta@.t_min_ns == if n > 0 {
                min_ts(ms, n)
            } else {
                0
            }
            &&& meta@.t_max_ns == if n > 0 {
                max_ts(ms, n)
            } else {
                0
            }
            &&& forall|e: u8|
                meta@.distinct_s.contains(e) <==> exists|j: int|
                    0 <= j < n && (#[trigger] ms[j]).s == e
            &&& forall|e: u8|
                meta@.distinct_f.contains(e) <==> exists|j: int|
                    0 <= j < n && (#[trigger] ms[j]).f == e
            &&& forall|e: u32|
                meta@.distinct_ceid.contains(e) <==> exists|j: int|
                    0 <= j < n && (#[trigger] ms[j]).ceid == e && e > 0
            &&& forall|e: u32|
                meta@.distinct_vid.contains(e) <==> exists|j: int|
                    0 <= j < n && (#[trigger] ms[j]).vid == e && e > 0
            &&& forall|e: u32|
                meta@.distinct_rptid.contains(e) <==> exists|j: int|
                    0 <= j < n && (#[trigger] ms[j]).rptid == e && e > 0
            &&& crate::columnar::sorted_unique_u8(meta@.distinct_s)
            &&& crate::columnar::sorted_unique_u8(meta@.distinct_f)
            &&& crate::columnar::sorted_unique_u32(meta@.distinct_ceid)
            &&& crate::columnar::sorted_unique_u32(meta@.distinct_vid)
            &&& crate::columnar::sorted_unique_u32(meta@.distinct_rptid)
            &&& !meta@.distinct_ceid.contains(0)
            &&& !meta@.distinct_vid.contains(0)
            &&& !meta@.distinct_rptid.contains(0)
            &&& forall|q: Seq<char>|
                q != session_id@ ==> (final(storage).has_session(q) == old(storage).has_session(q))
            &&& forall|q: Seq<char>|
                q != session_id@ && old(storage).has_session(q) ==> final(storage).session_at(q)
                    == old(storage).session_at(q)
        }),
{
    let ghost before = storage.sessions@;
    let k = match storage.find_session(session_id) {
        Option::Some(k) => k,
        Option::None => {
            return Result::Err(StoreError::SessionNotFound);
        },
    };
    proof {
        storage.lemma_session_at(session_id@, k as int);
    }
    let (id, mut sd) = storage.sessions.remove(k);
    let mut builder = ArrowBuilder::new();
    let mut collector = MetaCollector::new();
    let n = messages.len();
    let ghost ms = messages@;
    let mut i: usize = 0;
    while i < n
        invariant
            0 <= i <= n == ms.len(),
            ms == messages@,
            builder.wf(),
            builder.rows().len() < 50000,
            i == sd.chunks@.len() * 50000 + builder.rows().len(),
            forall|c: int|
                0 <= c < sd.chunks@.len() ==> (#[trigger] sd.chunks@[c]).wf() && sd.chunks@[
                    c
                ].rows().len() == 50000,
            forall|c: int, o: int|
                0 <= c < sd.chunks@.len() && 0 <= o < 50000 ==> (#[trigger] sd.chunks@[c].rows()[o])
                    == ms[c * 50000 + o]@.row(),
            forall|o: int|
                0 <= o < builder.rows().len() ==> (#[trigger] builder.rows()[o]) == ms[sd.chunks@.len()
                    * 50000 + o]@.row(),
            sd.payloads@.len() == i,
            forall|j: int|
                0 <= j < i ==> (#[trigger] sd.payloads@[j]).0 == ms[j].row_id && sd.payloads@[
                    j
                ].1@ == ms[j].body_json@,
            collector.wf(),
            collector.row_count == i,
            collector.t_min_ns == min_ts(ms, i as int),
            collector.t_max_ns == max_ts(ms, i as int),
            forall|e: u8|
                collector.distinct_s@.contains(e) <==> exists|j: int|
                    0 <= j < i && (#[trigger] ms[j]).s == e,
            forall|e: u8|
                collector.distinct_f@.contains(e) <==> exists|j: int|
                    0 <= j < i && (#[trigger] ms[j]).f == e,
            forall|e: u32|
                collector.distinct_ceid@.contains(e) <==> exists|j: int|
                    0 <= j < i && (#[trigger] ms[j]).ceid == e && e > 0,
            forall|e: u32|
                collector.distinct_vid@.contains(e) <==> exists|j: int|
                    0 <= j < i && (#[trigger] ms[j]).vid == e && e > 0,
            forall|e: u32|
                collector.distinct_rptid@.contains(e) <==> exists|j: int|
                    0 <= j < i && (#[trigger] ms[j]).rptid == e && e > 0,
        decreases n - i,
    {
        let msg = &messages[i];
        collector.update(msg);
        let body = String::from_str(msg.body_json.as_str());
        sd.payloads.push((msg.row_id, body));
        let ghost rows_before = builder.rows();
        builder.push(msg);
        if builder.len() >= crate::CHUNK_SIZE {
            let ghost chunks_before = sd.chunks@;
            sd.chunks.push(builder);
            builder = ArrowBuilder::new();
            proof {
                assert(sd.chunks@[chunks_before.len() as int].rows().len() == 50000);
                assert forall|c: int, o: int|
                    0 <= c < sd.chunks@.len() && 0 <= o < 50000 implies (#[trigger] sd.chunks@[
                    c
                ].rows()[o]) == ms[c * 50000 + o]@.row() by {
                    if c < chunks_before.len() {
                        assert(sd.chunks@[c] == chunks_before[c]);
                    } else {
                        assert(sd.chunks@[c].rows() == rows_before.push(ms[i as int]@.row()));
                    }
                }
            }
        }
        i = i + 1;
    }
    let ghost ci = sd.chunks@.len() as int;
    let ghost blen = builder.rows().len() as int;
    if builder.len() > 0 {
        sd.chunks.push(builder);
    }
    proof {
        let nn = n as int;
        assert(nn == ci * 50000 + blen);
        assert(0 <= blen < 50000);
        assert(nn / 50000 == ci && nn % 50000 == blen) by (nonlinear_arith)
            requires
                nn == ci * 50000 + blen,
                0 <= blen < 50000,
                ci >= 0;
    }
    let meta = collector.into_meta();
    sd.meta = Option::Some(copy_meta(&meta));
    proof {
        assert(sd.wf()) by {
            assert(forall|a: int, b: int|
                0 <= a < b < sd.payloads@.len() ==> (#[trigger] sd.payloads@[a]).0 != (
                #[trigger] sd.payloads@[b]).0);
        }
    }
    storage.sessions.insert(k, (id, sd));
    proof {
        assert(storage.sessions@.len() == before.len());
        assert(forall|j: int|
            0 <= j < before.len() && j != k ==> storage.sessions@[j] == before[j]);
        assert(storage.sessions@[k as int].0 == before[k as int].0);
        storage.lemma_session_at(session_id@, k as int);
        let sdf = final(storage).session_at(session_id@);
        assert forall|j: int| 0 <= j < n implies sdf.has_payload(
            (#[trigger] ms[j]).row_id,
        ) && sdf.payload_at(ms[j].row_id) == ms[j].body_json@ by {
            lemma_payload_at(&sdf, ms[j].row_id, j);
        }
        assert forall|j: int|
            0 <= j < n implies (#[trigger] sdf.chunks@[j / 50000]).rows()[j % 50000] == ms[
            j
        ]@.row() by {
            let c = j / 50000;
            let o = j % 50000;
            assert(c * 50000 + o == j && 0 <= o < 50000 && 0 <= c) by (nonlinear_arith)
                requires
                    c == j / 50000,
                    o == j % 50000,
                    0 <= j;
            assert(c <= ci) by (nonlinear_arith)
                requires
                    c * 50000 + o == j,
                    j < ci * 50000 + blen,
                    0 <= blen < 50000,
                    0 <= o < 50000,
                    0 <= c;
            if c < ci {
            } else {
                assert(o < blen) by (nonlinear_arith)
                    requires
                        c == ci,
                        c * 50000 + o == j,
                        j < ci * 50000 + blen;
            }
        }
        assert forall|q: Seq<char>|
            q != session_id@ && old(storage).has_session(q) implies final(storage).has_session(q)
            && final(storage).session_at(q) == old(storage).session_at(q) by {
            let w = choose|j: int| 0 <= j < before.len() && (#[trigger] before[j]).0@ == q;
            assert(w != k);
            assert(storage.sessions@[w] == before[w]);
            storage.lemma_session_at(q, w);
            old(storage).lemma_session_at(q, w);
        }
    }
    Result::Ok(meta)
}

/// Payload round trip: once a body is stored under a row identifier —
/// as a payload write or an ingestion leaves it — every read of that
/// identifier that meets the read contract yields exactly that body.
pub proof fn lemma_payload_round_trip(
    st: &SessionStorage,
    id: Seq<char>,
    rid: u32,
    body: Seq<char>,
    r: Result<String, StoreError>,
)
    requires
        st.has_session(id),
        st.session_at(id).has_payload(rid),
        st.session_at(id).payload_at(rid) == body,
        st.read_payload_post(id, rid, r),
    ensures
        r matches Ok(b) && b@ == body,
{
}

/// Deletion isolates: once a session is gone from the store — as
/// `delete_session` leaves it — every summary read and every payload
/// read that meets its contract reports the session missing.
pub proof fn lemma_deleted_session_unreachable(
    st: &SessionStorage,
    id: Seq<char>,
    rid: u32,
    r_meta: Result<SessionMeta, StoreError>,
    r_payload: Result<String, StoreError>,
)
    requires
        !st.has_session(id),
        st.read_meta_post(id, r_meta),
        st.read_payload_post(id, rid, r_payload),
    ensures
        r_meta matches Err(StoreError::SessionNotFound),
        r_payload matches Err(StoreError::SessionNotFound),
{
}

} // verus!
