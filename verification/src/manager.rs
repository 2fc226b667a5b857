//! The object store and session state machine.
//!
//! The manager owns every token object, assigns opaque handles from a
//! counter that only increases, evaluates attribute templates against the
//! store, and tracks per-session searches and pending sign operations. A
//! caller (the platform layer) serializes access under one lock, enumerates
//! the operating system's certificates into plain `CertRecord` values, and
//! executes the `SignRequest` values this module hands back.

use vstd::prelude::*;

use crate::object::spec_template;
use crate::object::spec_ec_field_len;
use crate::object::spec_spki_usable;
use crate::object::sha256_of;
use crate::object::Cert;
use crate::object::Key;
use crate::object::KeyType;
use crate::object::Object;
use crate::object::Spki;
use crate::der::spec_read_rsa_modulus;
use crate::util::clone_bytes;
use crate::util::subrange_vec;

verus! {

/// The parameter block of an RSA-PSS mechanism, as plain values.
#[derive(Clone, Copy)]
pub struct PssParams {
    pub hash_alg: u64,
    pub mgf: u64,
    pub salt_len: u64,
}

/// A pending sign operation: the key to sign with and the mechanism's
/// optional PSS parameters.
pub struct SignState {
    pub key_handle: u64,
    pub pss: Option<PssParams>,
}

/// One open session: its handle, the remaining handles of its active search
/// (drained head-first), and its pending sign operation.
pub struct Session {
    pub handle: u64,
    pub search: Option<Vec<u64>>,
    pub sign: Option<SignState>,
}

/// Everything the platform layer needs to execute one sign operation: the
/// key's handle and kind, the curve's field width for EC keys (to convert a
/// DER-encoded signature to raw `r || s`), the PSS parameters if the
/// mechanism carried them, and the data to sign.
pub struct SignRequest {
    pub key_handle: u64,
    pub key_type: KeyType,
    pub ec_field_len: Option<usize>,
    pub pss: Option<PssParams>,
    pub data: Vec<u8>,
}

/// A certificate as enumerated from the operating system's store, as plain
/// values: its DER encoding, the issuer, serial-number and subject bytes,
/// and its public-key info.
pub struct CertRecord {
    pub der: Vec<u8>,
    pub issuer: Vec<u8>,
    pub serial_number: Vec<u8>,
    pub subject: Vec<u8>,
    pub spki: Spki,
}

/// The object store and session machine.
pub struct Manager {
    /// The token objects, in insertion order.
    pub objects: Vec<Object>,
    /// `object_handles[i]` is the handle of `objects[i]`.
    pub object_handles: Vec<u64>,
    /// The open sessions, in the order their handles were issued.
    pub sessions: Vec<Session>,
    /// The next session handle to issue; session handles start at 1.
    pub next_session: u64,
    /// The next object handle to issue; object handles start at 1 and 0 is
    /// reserved as "invalid".
    pub next_object_handle: u64,
    /// Whether the store has been materialized since initialization or the
    /// last close_all_sessions.
    pub loaded: bool,
    /// Every session handle ever issued, in issue order.
    pub issued_sessions: Ghost<Seq<u64>>,
    /// Every object handle ever issued, in issue order.
    pub issued_object_handles: Ghost<Seq<u64>>,
}

impl Manager {
    /// The manager's invariant: handles are issued from the counters, in
    /// strictly increasing order and below the next handle to issue; the
    /// objects are well-formed; the live sessions are ordered by handle.
    pub open spec fn wf(&self) -> bool {
        &&& self.objects@.len() == self.object_handles@.len()
        &&& self.next_object_handle >= 1
        &&& self.next_session >= 1
        &&& forall|i: int|
            0 <= i < self.object_handles@.len() ==> 1 <= #[trigger] self.object_handles@[i]
                < self.next_object_handle
        &&& forall|i: int, j: int|
            0 <= i < j < self.object_handles@.len() ==> self.object_handles@[i]
                < self.object_handles@[j]
        &&& forall|i: int| 0 <= i < self.objects@.len() ==> (#[trigger] self.objects@[i]).wf()
        &&& forall|i: int|
            0 <= i < self.sessions@.len() ==> 1 <= (#[trigger] self.sessions@[i]).handle
                < self.next_session
        &&& forall|i: int, j: int|
            0 <= i < j < self.sessions@.len() ==> self.sessions@[i].handle
                < self.sessions@[j].handle
        &&& forall|k: int|
            0 <= k < self.issued_sessions@.len() ==> 1 <= #[trigger] self.issued_sessions@[k]
                < self.next_session
        &&& forall|k: int, l: int|
            0 <= k < l < self.issued_sessions@.len() ==> self.issued_sessions@[k]
                < self.issued_sessions@[l]
        &&& forall|k: int|
            0 <= k < self.issued_object_handles@.len() ==> 1
                <= #[trigger] self.issued_object_handles@[k] < self.next_object_handle
        &&& forall|k: int, l: int|
            0 <= k < l < self.issued_object_handles@.len() ==> self.issued_object_handles@[k]
                < self.issued_object_handles@[l]
    }

    /// Whether `session` is the handle of an open session.
    pub open spec fn spec_has_session(&self, session: u64) -> bool {
        exists|i: int| 0 <= i < self.sessions@.len() && self.sessions@[i].handle == session
    }

    /// The index of the open session with handle `session`.
    pub open spec fn spec_session_index(&self, session: u64) -> int {
        choose|i: int| 0 <= i < self.sessions@.len() && self.sessions@[i].handle == session
    }

    /// The open session with handle `session`.
    pub open spec fn spec_session(&self, session: u64) -> Session
        recommends
            self.spec_has_session(session),
    {
        self.sessions@[self.spec_session_index(session)]
    }

    /// Whether `handle` is the handle of a stored object.
    pub open spec fn spec_has_object(&self, handle: u64) -> bool {
        exists|j: int|
            0 <= j < self.object_handles@.len() && self.object_handles@[j] == handle
    }

    /// The index of the stored object with handle `handle`.
    pub open spec fn spec_object_index(&self, handle: u64) -> int {
        choose|j: int|
            0 <= j < self.object_handles@.len() && self.object_handles@[j] == handle
    }

    /// The stored object with handle `handle`.
    pub open spec fn spec_object(&self, handle: u64) -> Object
        recommends
            self.spec_has_object(handle),
    {
        self.objects@[self.spec_object_index(handle)]
    }

    pub fn new() -> (r: Manager)
        ensures
            r.wf(),
            r.objects@.len() == 0,
            r.object_handles@.len() == 0,
            r.sessions@.len() == 0,
            r.next_session == 1,
            r.next_object_handle == 1,
            !r.loaded,
            r.issued_sessions@ == Seq::<u64>::empty(),
            r.issued_object_handles@ == Seq::<u64>::empty(),
    {
        Manager {
            objects: Vec::new(),
            object_handles: Vec::new(),
            sessions: Vec::new(),
            next_session: 1,
            next_object_handle: 1,
            loaded: false,
            issued_sessions: Ghost(Seq::empty()),
            issued_object_handles: Ghost(Seq::empty()),
        }
    }

    /// Whether the store must be (re-)materialized before the next search.
    pub fn needs_enumeration(&self) -> (r: bool)
        ensures
            r == !self.loaded,
    {
        !self.loaded
    }

    /// Open a new session. The handle is taken from the session counter, so
    /// it is strictly greater than every session handle issued before; the
    /// session starts with no search and no sign operation. Fails only when
    /// the counter is exhausted.
    pub fn open_session(&mut self) -> (r: Result<u64, ()>)
        requires
            old(self).wf(),
        ensures
            final(self).wf(),
            old(self).next_session == u64::MAX ==> r is Err && *final(self) == *old(self),
            old(self).next_session < u64::MAX ==> {
                &&& r matches Ok(h) && h == old(self).next_session
                &&& final(self).sessions@ == old(self).sessions@.push(
                    Session { handle: old(self).next_session, search: None, sign: None },
                )
                &&& final(self).next_session == old(self).next_session + 1
                &&& final(self).issued_sessions@ == old(self).issued_sessions@.push(
                    old(self).next_session,
                )
                &&& spec_same_store(*old(self), *final(self))
            },
    {
        if self.next_session == u64::MAX {
            return Err(());
        }
        let h = self.next_session;
        self.next_session = self.next_session + 1;
        self.sessions.push(Session { handle: h, search: None, sign: None });
        proof {
            self.issued_sessions@ = self.issued_sessions@.push(h);
        }
        Ok(h)
    }

    /// Close the session with the given handle, discarding any pending
    /// search or sign operation. Fails exactly when the handle names no
    /// open session.
    pub fn close_session(&mut self, session: u64) -> (r: Result<(), ()>)
        requires
            old(self).wf(),
        ensures
            final(self).wf(),
            r is Ok <==> old(self).spec_has_session(session),
            !old(self).spec_has_session(session) ==> *final(self) == *old(self),
            old(self).spec_has_session(session) ==> {
                &&& final(self).sessions@ == old(self).sessions@.remove(
                    old(self).spec_session_index(session),
                )
                &&& spec_same_store(*old(self), *final(self))
                &&& spec_same_session_counter(*old(self), *final(self))
            },
    {
        let idx = match self.find_session_index(session) {
            Some(i) => i,
            None => {
                return Err(());
            },
        };
        proof {
            lemma_session_index_agrees(self, session, idx as int);
        }
        self.sessions.remove(idx);
        Ok(())
    }

    /// Close every open session. Idempotent; never fails. The store will be
    /// re-materialized on the next enumeration request.
    pub fn close_all_sessions(&mut self) -> (r: Result<(), ()>)
        requires
            old(self).wf(),
        ensures
            final(self).wf(),
            r is Ok,
            spec_close_all_post(*old(self), *final(self)),
    {
        self.sessions.clear();
        self.loaded = false;
        Ok(())
    }

    /// The index of the open session with handle `session`, by linear scan.
    fn find_session_index(&self, session: u64) -> (r: Option<usize>)
        ensures
            match r {
                Some(i) => 0 <= i < self.sessions@.len() && self.sessions@[i as int].handle
                    == session,
                None => !self.spec_has_session(session),
            },
    {
        let mut i: usize = 0;
        while i < self.sessions.len()
            invariant
                i <= self.sessions@.len(),
                forall|j: int| 0 <= j < i ==> self.sessions@[j].handle != session,
            decreases self.sessions@.len() - i,
        {
            if self.sessions[i].handle == session {
                return Some(i);
            }
            i = i + 1;
        }
        None
    }

    /// The index of the stored object with handle `handle`, by linear scan.
    fn find_object_index(&self, handle: u64) -> (r: Option<usize>)
        ensures
            match r {
                Some(j) => 0 <= j < self.object_handles@.len() && self.object_handles@[j as int]
                    == handle,
                None => !self.spec_has_object(handle),
            },
    {
        let mut j: usize = 0;
        while j < self.object_handles.len()
            invariant
                j <= self.object_handles@.len(),
                forall|k: int| 0 <= k < j ==> self.object_handles@[k] != handle,
            decreases self.object_handles@.len() - j,
        {
            if self.object_handles[j] == handle {
                return Some(j);
            }
            j = j + 1;
        }
        None
    }
}

impl Manager {
    /// The handles of the objects that match `template`, in insertion
    /// order.
    pub fn find(&self, template: &Vec<(u64, Vec<u8>)>) -> (r: Vec<u64>)
        requires
            self.wf(),
        ensures
            r@ == spec_find(self.object_handles@, self.objects@, spec_template(template@)),
    {
        let ghost t = spec_template(template@);
        let mut out: Vec<u64> = Vec::new();
        let mut i: usize = 0;
        proof {
            assert(self.object_handles@.skip(0) =~= self.object_handles@);
            assert(self.objects@.skip(0) =~= self.objects@);
        }
        while i < self.objects.len()
            invariant
                self.wf(),
                i <= self.objects@.len(),
                t == spec_template(template@),
                spec_find(self.object_handles@, self.objects@, t) == out@ + spec_find(
                    self.object_handles@.skip(i as int),
                    self.objects@.skip(i as int),
                    t,
                ),
            decreases self.objects@.len() - i,
        {
            let ghost hs = self.object_handles@.skip(i as int);
            let ghost os = self.objects@.skip(i as int);
            proof {
                assert(os[0] == self.objects@[i as int]);
                assert(hs[0] == self.object_handles@[i as int]);
                assert(hs.drop_first() =~= self.object_handles@.skip(i + 1));
                assert(os.drop_first() =~= self.objects@.skip(i + 1));
            }
            if self.objects[i].matches(template) {
                let ghost prev = out@;
                out.push(self.object_handles[i]);
                proof {
                    assert(spec_find(hs, os, t) =~= seq![hs[0]] + spec_find(
                        hs.drop_first(),
                        os.drop_first(),
                        t,
                    ));
                    assert(out@ + spec_find(
                        self.object_handles@.skip(i + 1),
                        self.objects@.skip(i + 1),
                        t,
                    ) =~= prev + spec_find(hs, os, t));
                }
            } else {
                proof {
                    assert(spec_find(hs, os, t) == spec_find(
                        hs.drop_first(),
                        os.drop_first(),
                        t,
                    ));
                }
            }
            i = i + 1;
        }
        proof {
            assert(self.object_handles@.skip(i as int).len() == 0);
            assert(out@ + spec_find(
                self.object_handles@.skip(i as int),
                self.objects@.skip(i as int),
                t,
            ) =~= out@);
        }
        out
    }

    /// Compute the handles matching `template` and store them as the
    /// session's search cursor, replacing any prior cursor. Fails exactly
    /// when the handle names no open session.
    pub fn start_search(&mut self, session: u64, template: &Vec<(u64, Vec<u8>)>) -> (r: Result<
        (),
        (),
    >)
        requires
            old(self).wf(),
        ensures
            final(self).wf(),
            r is Ok <==> old(self).spec_has_session(session),
            !old(self).spec_has_session(session) ==> *final(self) == *old(self),
            old(self).spec_has_session(session) ==> {
                let i = old(self).spec_session_index(session);
                &&& final(self).sessions@.len() == old(self).sessions@.len()
                &&& forall|j: int|
                    0 <= j < old(self).sessions@.len() && j != i ==> final(self).sessions@[j]
                        == old(self).sessions@[j]
                &&& final(self).sessions@[i].handle == session
                &&& final(self).sessions@[i].sign == old(self).sessions@[i].sign
                &&& final(self).sessions@[i].search matches Some(c) && c@ == spec_find(
                    old(self).object_handles@,
                    old(self).objects@,
                    spec_template(template@),
                )
                &&& spec_same_store(*old(self), *final(self))
                &&& spec_same_session_counter(*old(self), *final(self))
            },
    {
        let idx = match self.find_session_index(session) {
            Some(i) => i,
            None => {
                return Err(());
            },
        };
        proof {
            lemma_session_index_agrees(self, session, idx as int);
        }
        let handles = self.find(template);
        let s = self.sessions.remove(idx);
        self.sessions.insert(
            idx,
            Session { handle: s.handle, search: Some(handles), sign: s.sign },
        );
        proof {
            assert(final(self).sessions@ =~= old(self).sessions@.update(
                idx as int,
                final(self).sessions@[idx as int],
            ));
        }
        Ok(())
    }

    /// Pop up to `max` handles from the head of the session's search
    /// cursor. A session without an active search yields zero handles (the
    /// permissive reading of a search that was never initialized); fewer
    /// than `max` remaining handles yield what remains. Fails exactly when
    /// the handle names no open session.
    pub fn search(&mut self, session: u64, max: usize) -> (r: Result<Vec<u64>, ()>)
        requires
            old(self).wf(),
        ensures
            final(self).wf(),
            r is Ok <==> old(self).spec_has_session(session),
            !old(self).spec_has_session(session) ==> *final(self) == *old(self),
            old(self).spec_has_session(session) ==> {
                let i = old(self).spec_session_index(session);
                &&& final(self).sessions@.len() == old(self).sessions@.len()
                &&& forall|j: int|
                    0 <= j < old(self).sessions@.len() && j != i ==> final(self).sessions@[j]
                        == old(self).sessions@[j]
                &&& final(self).sessions@[i].handle == session
                &&& final(self).sessions@[i].sign == old(self).sessions@[i].sign
                &&& match old(self).sessions@[i].search {
                    Some(cursor) => {
                        let k = if max as int <= cursor@.len() {
                            max as int
                        } else {
                            cursor@.len() as int
                        };
                        &&& r matches Ok(v) && v@ == cursor@.take(k)
                        &&& final(self).sessions@[i].search matches Some(c2) && c2@
                            == cursor@.skip(k)
                    },
                    None => {
                        &&& r matches Ok(v) && v@.len() == 0
                        &&& final(self).sessions@[i].search is None
                    },
                }
                &&& spec_same_store(*old(self), *final(self))
                &&& spec_same_session_counter(*old(self), *final(self))
            },
    {
        let idx = match self.find_session_index(session) {
            Some(i) => i,
            None => {
                return Err(());
            },
        };
        proof {
            lemma_session_index_agrees(self, session, idx as int);
        }
        let s = self.sessions.remove(idx);
        let (result, new_search): (Vec<u64>, Option<Vec<u64>>) = match s.search {
            Some(cursor) => {
                let k = if max <= cursor.len() {
                    max
                } else {
                    cursor.len()
                };
                let taken = subrange_vec(&cursor, 0, k);
                let rest = subrange_vec(&cursor, k, cursor.len());
                proof {
                    assert(taken@ =~= cursor@.take(k as int));
                    assert(rest@ =~= cursor@.skip(k as int));
                }
                (taken, Some(rest))
            },
            None => (Vec::new(), None),
        };
        self.sessions.insert(
            idx,
            Session { handle: s.handle, search: new_search, sign: s.sign },
        );
        proof {
            assert(final(self).sessions@ =~= old(self).sessions@.update(
                idx as int,
                final(self).sessions@[idx as int],
            ));
        }
        Ok(result)
    }

    /// Drop the session's search cursor, if any. Permissive: succeeds even
    /// when the session has no active search or the handle names no open
    /// session.
    pub fn clear_search(&mut self, session: u64) -> (r: Result<(), ()>)
        requires
            old(self).wf(),
        ensures
            final(self).wf(),
            r is Ok,
            !old(self).spec_has_session(session) ==> *final(self) == *old(self),
            old(self).spec_has_session(session) ==> {
                let i = old(self).spec_session_index(session);
                &&& final(self).sessions@.len() == old(self).sessions@.len()
                &&& forall|j: int|
                    0 <= j < old(self).sessions@.len() && j != i ==> final(self).sessions@[j]
                        == old(self).sessions@[j]
                &&& final(self).sessions@[i].handle == session
                &&& final(self).sessions@[i].sign == old(self).sessions@[i].sign
                &&& final(self).sessions@[i].search is None
                &&& spec_same_store(*old(self), *final(self))
                &&& spec_same_session_counter(*old(self), *final(self))
            },
    {
        let idx = match self.find_session_index(session) {
            Some(i) => i,
            None => {
                return Ok(());
            },
        };
        proof {
            lemma_session_index_agrees(self, session, idx as int);
        }
        let s = self.sessions.remove(idx);
        self.sessions.insert(idx, Session { handle: s.handle, search: None, sign: s.sign });
        proof {
            assert(final(self).sessions@ =~= old(self).sessions@.update(
                idx as int,
                final(self).sessions@[idx as int],
            ));
        }
        Ok(())
    }
}

impl Manager {
    /// The length in bytes of a signature made with the key stored under
    /// `key_handle`: the modulus length for RSA, twice the field-element
    /// width for EC. `None` when the handle does not name a private key of
    /// a recognized kind.
    pub open spec fn spec_sign_len(&self, key_handle: u64) -> Option<usize> {
        if !self.spec_has_object(key_handle) {
            None
        } else {
            match self.spec_object(key_handle) {
                Object::Key(k) => match k.key_type_enum {
                    KeyType::RSA => match k.modulus {
                        Some(m) => Some(m@.len() as usize),
                        None => None,
                    },
                    KeyType::EC => match k.ec_params {
                        Some(p) => match spec_ec_field_len(p@) {
                            Some(fl) => if fl <= usize::MAX / 2 {
                                Some((2 * fl) as usize)
                            } else {
                                None
                            },
                            None => None,
                        },
                        None => None,
                    },
                },
                Object::Cert(_) => None,
            }
        }
    }

    /// Store a pending sign operation on the session. Fails exactly when
    /// the session is unknown or `key_handle` does not name a stored
    /// private-key object. Replaces any pending sign operation.
    pub fn start_sign(&mut self, session: u64, key_handle: u64, pss: Option<PssParams>) -> (r:
        Result<(), ()>)
        requires
            old(self).wf(),
        ensures
            final(self).wf(),
            r is Ok <==> (old(self).spec_has_session(session) && old(self).spec_has_object(
                key_handle,
            ) && old(self).spec_object(key_handle) is Key),
            r is Err ==> *final(self) == *old(self),
            r is Ok ==> {
                let i = old(self).spec_session_index(session);
                &&& final(self).sessions@.len() == old(self).sessions@.len()
                &&& forall|j: int|
                    0 <= j < old(self).sessions@.len() && j != i ==> final(self).sessions@[j]
                        == old(self).sessions@[j]
                &&& final(self).sessions@[i].handle == session
                &&& final(self).sessions@[i].search == old(self).sessions@[i].search
                &&& final(self).sessions@[i].sign matches Some(st) && st.key_handle == key_handle
                    && st.pss == pss
                &&& spec_same_store(*old(self), *final(self))
                &&& spec_same_session_counter(*old(self), *final(self))
            },
    {
        let idx = match self.find_session_index(session) {
            Some(i) => i,
            None => {
                return Err(());
            },
        };
        proof {
            lemma_session_index_agrees(self, session, idx as int);
        }
        let obj_idx = match self.find_object_index(key_handle) {
            Some(j) => j,
            None => {
                return Err(());
            },
        };
        proof {
            lemma_object_index_agrees(self, key_handle, obj_idx as int);
        }
        let is_key = match &self.objects[obj_idx] {
            Object::Key(_) => true,
            Object::Cert(_) => false,
        };
        if !is_key {
            return Err(());
        }
        let s = self.sessions.remove(idx);
        self.sessions.insert(
            idx,
            Session {
                handle: s.handle,
                search: s.search,
                sign: Some(SignState { key_handle, pss }),
            },
        );
        proof {
            assert(final(self).sessions@ =~= old(self).sessions@.update(
                idx as int,
                final(self).sessions@[idx as int],
            ));
        }
        Ok(())
    }

    /// The length the pending sign operation's signature will have, without
    /// consuming the operation. Fails exactly when the session is unknown,
    /// no sign operation is pending, or the key cannot be signed with (it
    /// vanished from the store, or its curve is not recognized).
    pub fn get_signature_length(&self, session: u64, data: &Vec<u8>) -> (r: Result<usize, ()>)
        requires
            self.wf(),
        ensures
            (self.spec_has_session(session) && self.spec_session(session).sign is Some) ==> {
                let st = self.spec_session(session).sign->0;
                match self.spec_sign_len(st.key_handle) {
                    Some(n) => r matches Ok(m) && m == n,
                    None => r is Err,
                }
            },
            !(self.spec_has_session(session) && self.spec_session(session).sign is Some) ==> r
                is Err,
    {
        let _ = data;
        let idx = match self.find_session_index(session) {
            Some(i) => i,
            None => {
                return Err(());
            },
        };
        proof {
            lemma_session_index_agrees(self, session, idx as int);
        }
        let key_handle = match &self.sessions[idx].sign {
            Some(st) => st.key_handle,
            None => {
                return Err(());
            },
        };
        self.signature_length_for_key(key_handle)
    }

    /// The signature length for the key stored under `key_handle`, per
    /// `spec_sign_len`.
    fn signature_length_for_key(&self, key_handle: u64) -> (r: Result<usize, ()>)
        requires
            self.wf(),
        ensures
            match self.spec_sign_len(key_handle) {
                Some(n) => r matches Ok(m) && m == n,
                None => r is Err,
            },
    {
        let obj_idx = match self.find_object_index(key_handle) {
            Some(j) => j,
            None => {
                return Err(());
            },
        };
        proof {
            lemma_object_index_agrees(self, key_handle, obj_idx as int);
        }
        match &self.objects[obj_idx] {
            Object::Cert(_) => Err(()),
            Object::Key(k) => match k.key_type_enum {
                KeyType::RSA => match &k.modulus {
                    Some(m) => Ok(m.len()),
                    None => Err(()),
                },
                KeyType::EC => match &k.ec_params {
                    Some(p) => match crate::object::ec_field_len(p) {
                        Some(fl) => {
                            if fl <= usize::MAX / 2 {
                                Ok(2 * fl)
                            } else {
                                Err(())
                            }
                        },
                        None => Err(()),
                    },
                    None => Err(()),
                },
            },
        }
    }

    /// Consume the session's pending sign operation and hand back what the
    /// platform layer needs to execute it. Single-shot: the pending
    /// operation is cleared whenever one was present, even if the key can
    /// no longer be signed with. Fails exactly when the session is unknown,
    /// no sign operation is pending, or the key cannot be signed with.
    pub fn sign_request(&mut self, session: u64, data: Vec<u8>) -> (r: Result<SignRequest, ()>)
        requires
            old(self).wf(),
        ensures
            final(self).wf(),
            !(old(self).spec_has_session(session) && old(self).spec_session(session).sign
                is Some) ==> r is Err && *final(self) == *old(self),
            (old(self).spec_has_session(session) && old(self).spec_session(session).sign
                is Some) ==> {
                let st = old(self).spec_session(session).sign->0;
                let i = old(self).spec_session_index(session);
                &&& final(self).sessions@.len() == old(self).sessions@.len()
                &&& forall|j: int|
                    0 <= j < old(self).sessions@.len() && j != i ==> final(self).sessions@[j]
                        == old(self).sessions@[j]
                &&& final(self).sessions@[i].handle == session
                &&& final(self).sessions@[i].search == old(self).sessions@[i].search
                &&& final(self).sessions@[i].sign is None
                &&& spec_same_store(*old(self), *final(self))
                &&& spec_same_session_counter(*old(self), *final(self))
                &&& match old(self).spec_sign_len(st.key_handle) {
                    Some(_) => {
                        &&& r matches Ok(req)
                        &&& req.key_handle == st.key_handle
                        &&& req.pss == st.pss
                        &&& req.data@ == data@
                        &&& old(self).spec_object(st.key_handle) matches Object::Key(k) && {
                            &&& req.key_type == k.key_type_enum
                            &&& match k.key_type_enum {
                                KeyType::RSA => req.ec_field_len is None,
                                KeyType::EC => req.ec_field_len == spec_ec_field_len(
                                    k.ec_params->0@,
                                ),
                            }
                        }
                    },
                    None => r is Err,
                }
            },
    {
        let idx = match self.find_session_index(session) {
            Some(i) => i,
            None => {
                return Err(());
            },
        };
        proof {
            lemma_session_index_agrees(self, session, idx as int);
        }
        let has_sign = match &self.sessions[idx].sign {
            Some(_) => true,
            None => false,
        };
        if !has_sign {
            return Err(());
        }
        let s = self.sessions.remove(idx);
        let st = match s.sign {
            Some(st) => st,
            None => {
                // unreachable: checked above
                self.sessions.insert(idx, Session { handle: s.handle, search: s.search, sign: None });
                proof {
                    assert(final(self).sessions@ =~= old(self).sessions@.update(
                        idx as int,
                        final(self).sessions@[idx as int],
                    ));
                }
                return Err(());
            },
        };
        self.sessions.insert(idx, Session { handle: s.handle, search: s.search, sign: None });
        proof {
            assert(final(self).sessions@ =~= old(self).sessions@.update(
                idx as int,
                final(self).sessions@[idx as int],
            ));
        }
        let obj_idx = match self.find_object_index(st.key_handle) {
            Some(j) => j,
            None => {
                return Err(());
            },
        };
        proof {
            lemma_object_index_agrees(self, st.key_handle, obj_idx as int);
        }
        match &self.objects[obj_idx] {
            Object::Cert(_) => Err(()),
            Object::Key(k) => match k.key_type_enum {
                KeyType::RSA => match &k.modulus {
                    Some(_) => Ok(
                        SignRequest {
                            key_handle: st.key_handle,
                            key_type: KeyType::RSA,
                            ec_field_len: None,
                            pss: st.pss,
                            data,
                        },
                    ),
                    None => Err(()),
                },
                KeyType::EC => match &k.ec_params {
                    Some(p) => match crate::object::ec_field_len(p) {
                        Some(fl) => {
                            if fl <= usize::MAX / 2 {
                                Ok(
                                    SignRequest {
                                        key_handle: st.key_handle,
                                        key_type: KeyType::EC,
                                        ec_field_len: Some(fl),
                                        pss: st.pss,
                                        data,
                                    },
                                )
                            } else {
                                Err(())
                            }
                        },
                        None => Err(()),
                    },
                    None => Err(()),
                },
            },
        }
    }

    /// The value of one attribute of the object stored under
    /// `object_handle`: its bytes if the object carries the attribute,
    /// "not present" if it does not. Fails exactly when the handle names no
    /// stored object.
    pub fn get_attribute(&self, object_handle: u64, attribute: u64) -> (r: Result<
        Option<Vec<u8>>,
        (),
    >)
        requires
            self.wf(),
        ensures
            r is Ok <==> self.spec_has_object(object_handle),
            r matches Ok(v) ==> match self.spec_object(object_handle).spec_get_attribute(
                attribute,
            ) {
                Some(b) => v matches Some(bv) && bv@ == b,
                None => v is None,
            },
    {
        let obj_idx = match self.find_object_index(object_handle) {
            Some(j) => j,
            None => {
                return Err(());
            },
        };
        proof {
            lemma_object_index_agrees(self, object_handle, obj_idx as int);
        }
        Ok(self.objects[obj_idx].get_attribute(attribute))
    }

    /// The values of several attributes of one object, in the order they
    /// were asked for. Fails exactly when the handle names no stored
    /// object; an attribute the object does not carry yields "not present".
    pub fn get_attributes(&self, object_handle: u64, attr_types: &Vec<u64>) -> (r: Result<
        Vec<Option<Vec<u8>>>,
        (),
    >)
        requires
            self.wf(),
        ensures
            r is Ok <==> self.spec_has_object(object_handle),
            r matches Ok(v) ==> {
                &&& v@.len() == attr_types@.len()
                &&& forall|i: int|
                    0 <= i < attr_types@.len() ==> match self.spec_object(
                        object_handle,
                    ).spec_get_attribute(#[trigger] attr_types@[i]) {
                        Some(b) => v@[i] matches Some(bv) && bv@ == b,
                        None => v@[i] is None,
                    }
            },
    {
        let obj_idx = match self.find_object_index(object_handle) {
            Some(j) => j,
            None => {
                return Err(());
            },
        };
        proof {
            lemma_object_index_agrees(self, object_handle, obj_idx as int);
        }
        let mut values: Vec<Option<Vec<u8>>> = Vec::new();
        let mut i: usize = 0;
        while i < attr_types.len()
            invariant
                self.wf(),
                i <= attr_types@.len(),
                values@.len() == i,
                0 <= obj_idx < self.objects@.len(),
                self.objects@[obj_idx as int] == self.spec_object(object_handle),
                forall|j: int|
                    0 <= j < i ==> match self.spec_object(object_handle).spec_get_attribute(
                        #[trigger] attr_types@[j],
                    ) {
                        Some(b) => values@[j] matches Some(bv) && bv@ == b,
                        None => values@[j] is None,
                    },
            decreases attr_types@.len() - i,
        {
            values.push(self.objects[obj_idx].get_attribute(attr_types[i]));
            i = i + 1;
        }
        Ok(values)
    }
}

/// The records a store load keeps: those whose public-key info is usable.
/// Records with an unusable public key are skipped silently.
pub open spec fn spec_usable(records: Seq<CertRecord>) -> Seq<CertRecord>
    decreases records.len(),
{
    if records.len() == 0 {
        Seq::empty()
    } else if spec_spki_usable(&records.last().spki) {
        spec_usable(records.drop_last()).push(records.last())
    } else {
        spec_usable(records.drop_last())
    }
}

/// A load never keeps more records than it was given.
pub proof fn lemma_usable_len(records: Seq<CertRecord>)
    ensures
        spec_usable(records).len() <= records.len(),
    decreases records.len(),
{
    if records.len() > 0 {
        lemma_usable_len(records.drop_last());
    }
}

/// Whether `c` is the certificate object built from record `r`.
pub open spec fn spec_cert_of(c: Cert, r: CertRecord) -> bool {
    &&& c.wf()
    &&& c.value@ == r.der@
    &&& c.issuer@ == r.issuer@
    &&& c.serial_number@ == r.serial_number@
    &&& c.subject@ == r.subject@
}

/// Whether `k` is the private-key object built from record `r`.
pub open spec fn spec_key_of(k: Key, r: CertRecord) -> bool {
    &&& k.wf()
    &&& k.id@ == sha256_of(r.der@)
    &&& match r.spki {
        Spki::Rsa { public_key } => {
            &&& k.key_type_enum is RSA
            &&& k.modulus matches Some(m) && Some(m@) == spec_read_rsa_modulus(public_key@)
        },
        Spki::Ec { params } => {
            &&& k.key_type_enum is EC
            &&& k.ec_params matches Some(p) && p@ == params@
        },
    }
}

/// Whether the store of `post` holds exactly the objects materialized from
/// the usable records of `u`, paired and in order: for each kept record one
/// certificate object at the even index and one private-key object right
/// after it.
pub open spec fn spec_loaded_shape(objects: Seq<Object>, u: Seq<CertRecord>) -> bool {
    &&& objects.len() == 2 * u.len()
    &&& forall|i: int|
        #![trigger objects[i]]
        0 <= i < objects.len() ==> {
            &&& (i % 2 == 0 ==> (objects[i] matches Object::Cert(c) && spec_cert_of(
                c,
                u[i / 2],
            )))
            &&& (i % 2 == 1 ==> (objects[i] matches Object::Key(k) && spec_key_of(
                k,
                u[i / 2],
            )))
        }
}

impl Manager {
    /// Materialize the store from the certificates enumerated out of the
    /// operating system's store, replacing the previous contents. For every
    /// record with a usable public key, one certificate object and one
    /// private-key object are created, on consecutive fresh handles; the
    /// other records are skipped. Fails only when the handle counter cannot
    /// cover the records.
    pub fn load_objects(&mut self, records: &Vec<CertRecord>) -> (r: Result<(), ()>)
        requires
            old(self).wf(),
        ensures
            final(self).wf(),
            r is Err <==> records@.len() > (u64::MAX - old(self).next_object_handle) / 2,
            r is Err ==> *final(self) == *old(self),
            r is Ok ==> {
                let u = spec_usable(records@);
                &&& final(self).loaded
                &&& final(self).sessions@ == old(self).sessions@
                &&& spec_same_session_counter(*old(self), *final(self))
                &&& spec_loaded_shape(final(self).objects@, u)
                &&& final(self).object_handles@.len() == 2 * u.len()
                &&& forall|i: int|
                    #![trigger final(self).object_handles@[i]]
                    0 <= i < final(self).object_handles@.len()
                        ==> final(self).object_handles@[i] == old(self).next_object_handle + i
                &&& final(self).next_object_handle == old(self).next_object_handle + 2 * u.len()
                &&& final(self).issued_object_handles@ == old(self).issued_object_handles@
                    + final(self).object_handles@
            },
    {
        if records.len() as u64 > (u64::MAX - self.next_object_handle) / 2 {
            return Err(());
        }
        let ghost n0 = self.next_object_handle as int;
        let ghost issued0 = self.issued_object_handles@;
        self.objects = Vec::new();
        self.object_handles = Vec::new();
        let mut idx: usize = 0;
        proof {
            assert(records@.take(0) =~= Seq::<CertRecord>::empty());
        }
        while idx < records.len()
            invariant
                self.next_session == old(self).next_session,
                self.issued_sessions@ == old(self).issued_sessions@,
                self.sessions@ == old(self).sessions@,
                self.loaded == old(self).loaded,
                self.issued_object_handles@ == issued0,
                old(self).wf(),
                idx <= records@.len(),
                n0 == old(self).next_object_handle as int,
                n0 + 2 * records@.len() <= u64::MAX,
                self.objects@.len() == self.object_handles@.len(),
                spec_loaded_shape(self.objects@, spec_usable(records@.take(idx as int))),
                self.next_object_handle as int == n0 + self.objects@.len(),
                forall|i: int|
                    #![trigger self.object_handles@[i]]
                    0 <= i < self.object_handles@.len() ==> self.object_handles@[i] == n0 + i,
            decreases records@.len() - idx,
        {
            proof {
                lemma_usable_len(records@.take(idx as int));
                assert(records@.take(idx as int).len() == idx as int);
                assert(records@.take(idx + 1).drop_last() =~= records@.take(idx as int));
                assert(records@.take(idx + 1).last() == records@[idx as int]);
            }
            let record = &records[idx];
            match Key::new(&record.der, &record.spki) {
                Ok(key) => {
                    let cert = Cert::new(
                        clone_bytes(&record.der),
                        clone_bytes(&record.issuer),
                        clone_bytes(&record.serial_number),
                        clone_bytes(&record.subject),
                    );
                    let h = self.next_object_handle;
                    self.object_handles.push(h);
                    self.objects.push(Object::Cert(cert));
                    self.object_handles.push(h + 1);
                    self.objects.push(Object::Key(key));
                    self.next_object_handle = h + 2;
                },
                Err(()) => {},
            }
            idx = idx + 1;
        }
        self.loaded = true;
        proof {
            assert(records@.take(idx as int) =~= records@);
            self.issued_object_handles@ = issued0 + self.object_handles@;
            lemma_usable_len(records@);
        }
        Ok(())
    }
}

/// The handles among `handles` whose object matches `template`, in order:
/// the specification of the search engine.
pub open spec fn spec_find(
    handles: Seq<u64>,
    objects: Seq<Object>,
    template: Seq<(u64, Seq<u8>)>,
) -> Seq<u64>
    decreases objects.len(),
{
    if objects.len() == 0 || handles.len() == 0 {
        Seq::empty()
    } else if objects.first().spec_matches(template) {
        seq![handles.first()] + spec_find(handles.drop_first(), objects.drop_first(), template)
    } else {
        spec_find(handles.drop_first(), objects.drop_first(), template)
    }
}

/// The parts of the manager the session operations leave alone.
pub open spec fn spec_same_store(pre: Manager, post: Manager) -> bool {
    &&& post.objects == pre.objects
    &&& post.object_handles == pre.object_handles
    &&& post.next_object_handle == pre.next_object_handle
    &&& post.loaded == pre.loaded
    &&& post.issued_object_handles@ == pre.issued_object_handles@
}

/// The parts of the manager that record which session handles exist(ed).
pub open spec fn spec_same_session_counter(pre: Manager, post: Manager) -> bool {
    &&& post.next_session == pre.next_session
    &&& post.issued_sessions@ == pre.issued_sessions@
}

/// How close_all_sessions relates the state before the call to the state
/// after it: the session set is empty, the store is kept but marked for
/// re-materialization, and both handle counters and histories are kept.
pub open spec fn spec_close_all_post(pre: Manager, post: Manager) -> bool {
    &&& post.sessions@ == Seq::<Session>::empty()
    &&& post.next_session == pre.next_session
    &&& post.issued_sessions@ == pre.issued_sessions@
    &&& post.objects == pre.objects
    &&& post.object_handles == pre.object_handles
    &&& post.next_object_handle == pre.next_object_handle
    &&& post.issued_object_handles@ == pre.issued_object_handles@
    &&& post.loaded == false
}

/// Every handle a search returns names a stored object: the cursor is a
/// subsequence of the store's handle column.
pub proof fn lemma_find_subset(
    handles: Seq<u64>,
    objects: Seq<Object>,
    template: Seq<(u64, Seq<u8>)>,
)
    requires
        handles.len() == objects.len(),
    ensures
        forall|i: int|
            0 <= i < spec_find(handles, objects, template).len() ==> handles.contains(
                #[trigger] spec_find(handles, objects, template)[i],
            ),
    decreases objects.len(),
{
    if objects.len() > 0 {
        lemma_find_subset(handles.drop_first(), objects.drop_first(), template);
        let found = spec_find(handles, objects, template);
        let rest = spec_find(handles.drop_first(), objects.drop_first(), template);
        assert forall|i: int| 0 <= i < found.len() implies handles.contains(
            #[trigger] found[i],
        ) by {
            if objects.first().spec_matches(template) {
                if i == 0 {
                    assert(found[0] == handles[0]);
                    assert(handles.contains(handles[0]));
                } else {
                    assert(found[i] == rest[i - 1]);
                    let k = choose|k: int|
                        0 <= k < handles.drop_first().len() && handles.drop_first()[k]
                            == rest[i - 1];
                    assert(handles[k + 1] == rest[i - 1]);
                    assert(handles.contains(handles[k + 1]));
                }
            } else {
                assert(found[i] == rest[i]);
                let k = choose|k: int|
                    0 <= k < handles.drop_first().len() && handles.drop_first()[k] == rest[i];
                assert(handles[k + 1] == rest[i]);
                assert(handles.contains(handles[k + 1]));
            }
        }
    }
}

/// A search never returns a handle twice: over a store whose handle column
/// is strictly increasing, the handles a search computes are strictly
/// increasing too, in store order.
pub proof fn lemma_find_strictly_increasing(
    handles: Seq<u64>,
    objects: Seq<Object>,
    template: Seq<(u64, Seq<u8>)>,
)
    requires
        handles.len() == objects.len(),
        forall|i: int, j: int| 0 <= i < j < handles.len() ==> handles[i] < handles[j],
    ensures
        forall|i: int, j: int|
            0 <= i < j < spec_find(handles, objects, template).len() ==> spec_find(
                handles,
                objects,
                template,
            )[i] < spec_find(handles, objects, template)[j],
    decreases objects.len(),
{
    if objects.len() > 0 {
        let tail_h = handles.drop_first();
        let tail_o = objects.drop_first();
        lemma_find_strictly_increasing(tail_h, tail_o, template);
        lemma_find_subset(tail_h, tail_o, template);
        let found = spec_find(handles, objects, template);
        let rest = spec_find(tail_h, tail_o, template);
        assert forall|i: int, j: int| 0 <= i < j < found.len() implies found[i]
            < found[j] by {
            if objects.first().spec_matches(template) {
                if i == 0 {
                    assert(found[0] == handles[0]);
                    assert(found[j] == rest[j - 1]);
                    assert(tail_h.contains(rest[j - 1]));
                    let k = choose|k: int|
                        0 <= k < tail_h.len() && tail_h[k] == rest[j - 1];
                    assert(handles[0] < handles[k + 1]);
                } else {
                    assert(found[i] == rest[i - 1] && found[j] == rest[j - 1]);
                }
            } else {
                assert(found[i] == rest[i] && found[j] == rest[j]);
            }
        }
    }
}

/// Draining a search cursor head-first loses nothing and invents nothing:
/// what one call returns and what it leaves behind reassemble the cursor.
/// Together with `lemma_find_strictly_increasing` and the contracts of
/// start_search and search, a search initialized on a template and drained
/// to exhaustion returns exactly the matching handles, in insertion order,
/// with no duplicates.
pub proof fn lemma_cursor_drain(cursor: Seq<u64>, k: int)
    requires
        0 <= k <= cursor.len(),
    ensures
        cursor.take(k) + cursor.skip(k) == cursor,
{
    assert(cursor.take(k) + cursor.skip(k) =~= cursor);
}

/// The search round trip: start_search stores `spec_find` of the template
/// as the cursor, and one search call asking for at least as many handles
/// as the cursor holds returns `take` of the whole cursor — that is,
/// exactly the matching handles, in insertion order, without duplicates —
/// and leaves an empty cursor, so any further search returns nothing.
pub proof fn lemma_search_round_trip(
    handles: Seq<u64>,
    objects: Seq<Object>,
    template: Seq<(u64, Seq<u8>)>,
    max: int,
)
    requires
        handles.len() == objects.len(),
        forall|i: int, j: int| 0 <= i < j < handles.len() ==> handles[i] < handles[j],
        max >= spec_find(handles, objects, template).len(),
    ensures
        ({
            let cursor = spec_find(handles, objects, template);
            let k = if max <= cursor.len() {
                max
            } else {
                cursor.len() as int
            };
            &&& cursor.take(k) == cursor
            &&& cursor.skip(k).len() == 0
            &&& forall|i: int, j: int|
                0 <= i < j < cursor.take(k).len() ==> cursor.take(k)[i] != cursor.take(k)[j]
        }),
{
    let cursor = spec_find(handles, objects, template);
    lemma_find_strictly_increasing(handles, objects, template);
    let k = if max <= cursor.len() {
        max
    } else {
        cursor.len() as int
    };
    assert(k == cursor.len());
    assert(cursor.take(k) =~= cursor);
}

/// Certificates and private keys pair up one-to-one: in a freshly
/// materialized store whose kept records carry pairwise distinct digests,
/// every certificate object has exactly one private-key object with the
/// same id (the one right after it), and every private-key object has
/// exactly one certificate object with the same id (the one right before
/// it).
pub proof fn lemma_cert_key_pairing(objects: Seq<Object>, u: Seq<CertRecord>)
    requires
        spec_loaded_shape(objects, u),
        forall|a: int, b: int|
            0 <= a < b < u.len() ==> sha256_of(u[a].der@) != sha256_of(u[b].der@),
    ensures
        forall|i: int|
            0 <= i < objects.len() && (#[trigger] objects[i]) is Cert ==> {
                &&& objects[i + 1] is Key
                &&& objects[i + 1].spec_id() == objects[i].spec_id()
                &&& forall|j: int|
                    0 <= j < objects.len() && (#[trigger] objects[j]) is Key
                        && objects[j].spec_id() == objects[i].spec_id() ==> j == i + 1
            },
        forall|j: int|
            0 <= j < objects.len() && (#[trigger] objects[j]) is Key ==> {
                &&& objects[j - 1] is Cert
                &&& objects[j - 1].spec_id() == objects[j].spec_id()
                &&& forall|i: int|
                    0 <= i < objects.len() && (#[trigger] objects[i]) is Cert
                        && objects[i].spec_id() == objects[j].spec_id() ==> i == j - 1
            },
{
    assert forall|i: int| 0 <= i < objects.len() implies (objects[i] is Cert <==> i % 2
        == 0) && (objects[i] is Key <==> i % 2 == 1) && objects[i].spec_id() == sha256_of(
        u[i / 2].der@,
    ) by {
        assert(i == 2 * (i / 2) + i % 2);
    }
    assert forall|i: int|
        0 <= i < objects.len() && (#[trigger] objects[i]) is Cert implies {
        &&& objects[i + 1] is Key
        &&& objects[i + 1].spec_id() == objects[i].spec_id()
        &&& forall|j: int|
            0 <= j < objects.len() && (#[trigger] objects[j]) is Key && objects[j].spec_id()
                == objects[i].spec_id() ==> j == i + 1
    } by {
        assert(i % 2 == 0);
        assert(i == 2 * (i / 2));
        assert(i + 1 < objects.len());
        assert((i + 1) / 2 == i / 2);
        assert forall|j: int|
            0 <= j < objects.len() && (#[trigger] objects[j]) is Key && objects[j].spec_id()
                == objects[i].spec_id() implies j == i + 1 by {
            assert(j % 2 == 1);
            assert(j == 2 * (j / 2) + 1);
            if j / 2 != i / 2 {
                assert(sha256_of(u[j / 2].der@) != sha256_of(u[i / 2].der@));
            }
        }
    }
    assert forall|j: int|
        0 <= j < objects.len() && (#[trigger] objects[j]) is Key implies {
        &&& objects[j - 1] is Cert
        &&& objects[j - 1].spec_id() == objects[j].spec_id()
        &&& forall|i: int|
            0 <= i < objects.len() && (#[trigger] objects[i]) is Cert && objects[i].spec_id()
                == objects[j].spec_id() ==> i == j - 1
    } by {
        assert(j % 2 == 1);
        assert(j == 2 * (j / 2) + 1);
        assert((j - 1) / 2 == j / 2);
        assert forall|i: int|
            0 <= i < objects.len() && (#[trigger] objects[i]) is Cert && objects[i].spec_id()
                == objects[j].spec_id() implies i == j - 1 by {
            assert(i % 2 == 0);
            assert(i == 2 * (i / 2));
            if i / 2 != j / 2 {
                assert(sha256_of(u[i / 2].der@) != sha256_of(u[j / 2].der@));
            }
        }
    }
}

/// Object handles never repeat: the history of issued object handles is
/// strictly increasing in issue order, so no handle is ever issued twice,
/// not even after the store is re-materialized.
pub proof fn lemma_object_handles_never_reused(m: Manager)
    requires
        m.wf(),
    ensures
        forall|k: int, l: int|
            0 <= k < l < m.issued_object_handles@.len() ==> m.issued_object_handles@[k]
                < m.issued_object_handles@[l],
        forall|k: int, l: int|
            0 <= k < l < m.issued_object_handles@.len() ==> m.issued_object_handles@[k]
                != m.issued_object_handles@[l],
{
}

/// After close_all_sessions no session handle issued before is valid any
/// more, and the session the next open_session opens gets a handle
/// strictly greater than every session handle issued before.
pub proof fn lemma_close_all_then_open(pre: Manager, mid: Manager, post: Manager, h: u64)
    requires
        pre.wf(),
        spec_close_all_post(pre, mid),
        // what open_session's ensures establishes on success:
        h == mid.next_session,
        post.issued_sessions@ == mid.issued_sessions@.push(h),
        post.sessions@ == mid.sessions@.push(Session { handle: h, search: None, sign: None }),
    ensures
        forall|s: u64| !mid.spec_has_session(s),
        forall|k: int|
            0 <= k < pre.issued_sessions@.len() ==> #[trigger] pre.issued_sessions@[k] < h,
{
    assert forall|s: u64| !mid.spec_has_session(s) by {
        assert(mid.sessions@.len() == 0);
    }
}

/// Closing all sessions is idempotent: a second close_all_sessions leaves
/// the manager exactly as the first left it.
pub proof fn lemma_close_all_idempotent(m0: Manager, m1: Manager, m2: Manager)
    requires
        spec_close_all_post(m0, m1),
        spec_close_all_post(m1, m2),
    ensures
        m2.sessions@ == m1.sessions@,
        m2.objects == m1.objects,
        m2.object_handles == m1.object_handles,
        m2.next_session == m1.next_session,
        m2.next_object_handle == m1.next_object_handle,
        m2.loaded == m1.loaded,
        m2.issued_sessions@ == m1.issued_sessions@,
        m2.issued_object_handles@ == m1.issued_object_handles@,
{
}

/// In a well-formed manager, at most one session index carries a given
/// handle, so `spec_session_index` names the index any scan finds.
pub proof fn lemma_session_index_agrees(m: &Manager, session: u64, i: int)
    requires
        m.wf(),
        0 <= i < m.sessions@.len(),
        m.sessions@[i].handle == session,
    ensures
        m.spec_has_session(session),
        m.spec_session_index(session) == i,
{
    assert(m.spec_has_session(session));
    let c = m.spec_session_index(session);
    if c < i {
        assert(m.sessions@[c].handle < m.sessions@[i].handle);
    }
    if i < c {
        assert(m.sessions@[i].handle < m.sessions@[c].handle);
    }
}

/// In a well-formed manager, at most one store index carries a given
/// handle, so `spec_object_index` names the index any scan finds.
pub proof fn lemma_object_index_agrees(m: &Manager, handle: u64, j: int)
    requires
        m.wf(),
        0 <= j < m.object_handles@.len(),
        m.object_handles@[j] == handle,
    ensures
        m.spec_has_object(handle),
        m.spec_object_index(handle) == j,
{
    assert(m.spec_has_object(handle));
    let c = m.spec_object_index(handle);
    if c < j {
        assert(m.object_handles@[c] < m.object_handles@[j]);
    }
    if j < c {
        assert(m.object_handles@[j] < m.object_handles@[c]);
    }
}

} // verus!
