use vstd::prelude::*;

use crate::error::AppError;
use crate::models::{GDBSession, GDBSessionStatus};
use crate::output::{AsyncClass, OutOfBandRecord, Output, ResultClass};
use crate::text::{chars_of, is_hex_digit, push_all, str_eq, string_of};

verus! {

/// Whether `s` is a 128-bit identifier in canonical form: 36 characters,
/// hyphens at 8, 13, 18 and 23, lowercase hexadecimal digits elsewhere.
pub open spec fn is_uuid_text(s: Seq<char>) -> bool {
    &&& s.len() == 36
    &&& forall|i: int|
        0 <= i < 36 ==> if i == 8 || i == 13 || i == 18 || i == 23 {
            s[i] == '-'
        } else {
            ('0' <= #[trigger] s[i] && s[i] <= '9') || ('a' <= s[i] && s[i] <= 'f')
        }
}

/// Relies on `uuid::Uuid::new_v4` and its `Display`, which writes the
/// hyphenated lowercase form: a fresh random identifier.
#[verifier::external_body]
fn new_session_id() -> (r: String)
    ensures
        is_uuid_text(r@),
{
    uuid::Uuid::new_v4().to_string()
}

/// A session's status after a line of output: the report decides. A
/// `running` result or record means running; a `stopped` record, or an error
/// while running, means stopped; `^exit` ends the session; a session that
/// ended stays ended.
pub open spec fn status_after(st: GDBSessionStatus, out: Output) -> GDBSessionStatus {
    if st == GDBSessionStatus::Terminated {
        st
    } else {
        match out {
            Output::Result(r) => match r.class {
                ResultClass::Running => GDBSessionStatus::Running,
                ResultClass::Exit => GDBSessionStatus::Terminated,
                ResultClass::Error => if st == GDBSessionStatus::Running {
                    GDBSessionStatus::Stopped
                } else {
                    st
                },
                _ => st,
            },
            Output::OutOfBand(OutOfBandRecord::AsyncRecord { class: AsyncClass::Running, .. }) => {
                GDBSessionStatus::Running
            },
            Output::OutOfBand(OutOfBandRecord::AsyncRecord { class: AsyncClass::Stopped, .. }) => {
                GDBSessionStatus::Stopped
            },
            _ => st,
        }
    }
}

/// The status a session has after a line of output.
pub fn next_status(st: GDBSessionStatus, out: &Output) -> (r: GDBSessionStatus)
    ensures
        r == status_after(st, *out),
{
    if st == GDBSessionStatus::Terminated {
        return st;
    }
    match out {
        Output::Result(r) => match r.class {
            ResultClass::Running => GDBSessionStatus::Running,
            ResultClass::Exit => GDBSessionStatus::Terminated,
            ResultClass::Error => {
                if st == GDBSessionStatus::Running {
                    GDBSessionStatus::Stopped
                } else {
                    st
                }
            },
            _ => st,
        },
        Output::OutOfBand(OutOfBandRecord::AsyncRecord { class: AsyncClass::Running, .. }) => {
            GDBSessionStatus::Running
        },
        Output::OutOfBand(OutOfBandRecord::AsyncRecord { class: AsyncClass::Stopped, .. }) => {
            GDBSessionStatus::Stopped
        },
        _ => st,
    }
}

/// The index of the session with identifier `id`, or -1.
pub open spec fn session_index(s: Seq<GDBSession>, id: Seq<char>) -> int
    decreases s.len(),
{
    if s.len() == 0 {
        -1
    } else if s.last().id@ == id {
        s.len() - 1
    } else {
        session_index(s.drop_last(), id)
    }
}

/// `s` without the session with identifier `id`.
pub open spec fn sessions_without(s: Seq<GDBSession>, id: Seq<char>) -> Seq<GDBSession>
    decreases s.len(),
{
    if s.len() == 0 {
        s
    } else if s.last().id@ == id {
        sessions_without(s.drop_last(), id)
    } else {
        sessions_without(s.drop_last(), id).push(s.last())
    }
}

/// Whether no two sessions share an identifier.
pub open spec fn ids_unique(s: Seq<GDBSession>) -> bool {
    forall|i: int, j: int| 0 <= i < j < s.len() ==> s[i].id@ != s[j].id@
}

/// The sessions of this process, one per identifier.
pub struct SessionRegistry {
    sessions: Vec<GDBSession>,
    /// Every identifier handed out in this registry's lifetime, in order.
    issued: Vec<String>,
}

pub open spec fn strings_view(v: Seq<String>) -> Seq<Seq<char>> {
    v.map_values(|x: String| x@)
}

impl View for SessionRegistry {
    type V = Seq<GDBSession>;

    closed spec fn view(&self) -> Seq<GDBSession> {
        self.sessions@
    }
}

proof fn lemma_session_index(s: Seq<GDBSession>, id: Seq<char>)
    ensures
        -1 <= session_index(s, id) < s.len(),
        session_index(s, id) >= 0 ==> s[session_index(s, id)].id@ == id,
        session_index(s, id) < 0 ==> forall|i: int| 0 <= i < s.len() ==> s[i].id@ != id,
    decreases s.len(),
{
    if s.len() > 0 && s.last().id@ != id {
        lemma_session_index(s.drop_last(), id);
        if session_index(s, id) < 0 {
            assert forall|i: int| 0 <= i < s.len() implies s[i].id@ != id by {
                if i < s.len() - 1 {
                    assert(s.drop_last()[i] == s[i]);
                }
            }
        }
    }
}

proof fn lemma_without_absent(s: Seq<GDBSession>, id: Seq<char>)
    ensures
        session_index(sessions_without(s, id), id) < 0,
    decreases s.len(),
{
    if s.len() > 0 {
        lemma_without_absent(s.drop_last(), id);
        let w = sessions_without(s.drop_last(), id);
        if s.last().id@ != id {
            assert(w.push(s.last()).drop_last() =~= w);
        }
    }
}

/// Law: once a session is closed, looking it up finds nothing.
pub proof fn lemma_closed_session_not_found(s: Seq<GDBSession>, id: Seq<char>)
    ensures
        session_index(sessions_without(s, id), id) < 0,
{
    lemma_without_absent(s, id);
}

fn copy_session(s: &GDBSession) -> (r: GDBSession)
    ensures
        r == *s,
{
    GDBSession { id: s.id.clone(), status: s.status, created_at: s.created_at }
}

fn not_found(id: &str) -> (r: AppError)
    ensures
        r is NotFound,
{
    let mut out: Vec<char> = Vec::new();
    push_all(&mut out, "Session ");
    push_all(&mut out, id);
    push_all(&mut out, " does not exist");
    AppError::NotFound(string_of(&out))
}

impl SessionRegistry {
    #[verifier::type_invariant]
    spec fn inv(&self) -> bool {
        &&& ids_unique(self.sessions@)
        &&& forall|i: int|
            0 <= i < self.sessions@.len() ==> strings_view(self.issued@).contains(
                #[trigger] self.sessions@[i].id@,
            )
    }

    /// The identifiers handed out so far, closed sessions' included.
    pub closed spec fn issued(&self) -> Seq<Seq<char>> {
        strings_view(self.issued@)
    }

    /// No sessions, and no identifier handed out yet.
    pub fn new() -> (r: SessionRegistry)
        ensures
            r@.len() == 0,
            r.issued().len() == 0,
    {
        SessionRegistry { sessions: Vec::new(), issued: Vec::new() }
    }

    fn was_issued(&self, id: &str) -> (r: bool)
        ensures
            r == self.issued().contains(id@),
    {
        let mut k: usize = 0;
        while k < self.issued.len()
            invariant
                k <= self.issued@.len(),
                forall|i: int| 0 <= i < k ==> self.issued@[i]@ != id@,
            decreases self.issued@.len() - k,
        {
            if str_eq(self.issued[k].as_str(), id) {
                proof {
                    assert(self.issued()[k as int] == id@);
                }
                return true;
            }
            k = k + 1;
        }
        proof {
            if self.issued().contains(id@) {
                let j = choose|j: int| 0 <= j < self.issued().len() && self.issued()[j] == id@;
                assert(self.issued@[j]@ == id@);
            }
        }
        false
    }

    /// Registers a session under `id`, created at `created_at` (seconds since
    /// the Unix epoch), unless `id` was handed out before.
    pub fn insert_session(&mut self, id: String, created_at: u64) -> (r: Result<(), AppError>)
        ensures
            r is Ok <==> !old(self).issued().contains(id@),
            r is Ok ==> {
                &&& session_index(old(self)@, id@) < 0
                &&& final(self)@ == old(self)@.push(
                    GDBSession { id, status: GDBSessionStatus::Created, created_at },
                )
                &&& final(self).issued() == old(self).issued().push(id@)
            },
            r is Err ==> final(self)@ == old(self)@ && final(self).issued() == old(self).issued()
                && r->Err_0 is InvalidArgument,
    {
        proof {
            use_type_invariant(&*self);
        }
        if self.was_issued(id.as_str()) {
            return Err(AppError::InvalidArgument(crate::text::owned("session identifier in use")));
        }
        proof {
            lemma_session_index(self@, id@);
            assert forall|i: int| 0 <= i < self@.len() implies self@[i].id@ != id@ by {
                assert(self.issued().contains(self.sessions@[i].id@));
            }
        }
        let ghost before = self.sessions@;
        let ghost issued_before = self.issued@;
        let mut all: Vec<GDBSession> = Vec::new();
        core::mem::swap(&mut all, &mut self.sessions);
        let mut names: Vec<String> = Vec::new();
        core::mem::swap(&mut names, &mut self.issued);
        names.push(id.clone());
        all.push(GDBSession { id, status: GDBSessionStatus::Created, created_at });
        proof {
            assert(strings_view(names@) =~= strings_view(issued_before).push(all@.last().id@));
            assert forall|i: int, j: int| 0 <= i < j < all@.len() implies all@[i].id@ != all@[j].id@ by {
                if j < before.len() {
                    assert(before[i].id@ != before[j].id@);
                } else {
                    assert(before[i].id@ != all@.last().id@);
                }
            }
            assert forall|i: int| 0 <= i < all@.len() implies strings_view(names@).contains(
                #[trigger] all@[i].id@,
            ) by {
                if i < before.len() {
                    assert(strings_view(issued_before).contains(before[i].id@));
                    let j = choose|j: int|
                        0 <= j < strings_view(issued_before).len() && strings_view(issued_before)[j]
                            == before[i].id@;
                    assert(strings_view(names@)[j] == before[i].id@);
                } else {
                    assert(strings_view(names@)[issued_before.len() as int] == all@[i].id@);
                }
            }
        }
        self.issued = names;
        self.sessions = all;
        Ok(())
    }


    fn find(&self, id: &str) -> (r: Option<usize>)
        ensures
            match r {
                Some(i) => i < self@.len() && self@[i as int].id@ == id@,
                None => forall|i: int| 0 <= i < self@.len() ==> self@[i].id@ != id@,
            },
    {
        let mut k: usize = 0;
        while k < self.sessions.len()
            invariant
                k <= self.sessions@.len(),
                forall|i: int| 0 <= i < k ==> self.sessions@[i].id@ != id@,
            decreases self.sessions@.len() - k,
        {
            if str_eq(self.sessions[k].id.as_str(), id) {
                return Some(k);
            }
            k = k + 1;
        }
        None
    }

    /// Registers a new session under a freshly drawn identifier, created at
    /// `created_at` (seconds since the Unix epoch), and returns the
    /// identifier. It fails only if the draw repeats an identifier handed
    /// out before, which needs an identifier of the same form to be there.
    pub fn create_session(&mut self, created_at: u64) -> (r: Result<String, AppError>)
        ensures
            (forall|i: int| 0 <= i < old(self).issued().len() ==> !is_uuid_text(
                #[trigger] old(self).issued()[i],
            )) ==> r is Ok,
            r is Err ==> exists|i: int|
                0 <= i < old(self).issued().len() && is_uuid_text(#[trigger] old(self).issued()[i]),
            match r {
                Ok(id) => {
                    &&& is_uuid_text(id@)
                    &&& !old(self).issued().contains(id@)
                    &&& session_index(old(self)@, id@) < 0
                    &&& final(self)@ == old(self)@.push(
                        GDBSession { id, status: GDBSessionStatus::Created, created_at },
                    )
                    &&& final(self).issued() == old(self).issued().push(id@)
                },
                Err(e) => final(self)@ == old(self)@ && final(self).issued() == old(self).issued()
                    && e is InvalidArgument,
            },
    {
        let id = new_session_id();
        let copy = id.clone();
        match self.insert_session(copy, created_at) {
            Ok(()) => Ok(id),
            Err(e) => {
                proof {
                    let j = choose|j: int| 0 <= j < old(self).issued().len() && old(self).issued()[j] == id@;
                    assert(is_uuid_text(old(self).issued()[j]));
                }
                Err(e)
            },
        }
    }

    /// The session with identifier `id`; `NotFound` when there is none.
    pub fn get_session(&self, id: &str) -> (r: Result<GDBSession, AppError>)
        ensures
            match r {
                Ok(s) => session_index(self@, id@) >= 0 && s == self@[session_index(self@, id@)],
                Err(e) => session_index(self@, id@) < 0 && e is NotFound,
            },
    {
        proof {
            use_type_invariant(&*self);
            lemma_session_index(self@, id@);
        }
        match self.find(id) {
            Some(i) => {
                proof {
                    if session_index(self@, id@) != i {
                        let j = session_index(self@, id@);
                        if j < i {
                            assert(self@[j].id@ != self@[i as int].id@);
                        } else {
                            assert(self@[i as int].id@ != self@[j].id@);
                        }
                    }
                }
                Ok(copy_session(&self.sessions[i]))
            },
            None => Err(not_found(id)),
        }
    }

    /// All sessions, in order of creation.
    pub fn get_all_sessions(&self) -> (r: Vec<GDBSession>)
        ensures
            r@ == self@,
    {
        let mut out: Vec<GDBSession> = Vec::new();
        let mut k: usize = 0;
        while k < self.sessions.len()
            invariant
                k <= self.sessions@.len(),
                out@ == self.sessions@.subrange(0, k as int),
            decreases self.sessions@.len() - k,
        {
            out.push(copy_session(&self.sessions[k]));
            proof {
                assert(out@ =~= self.sessions@.subrange(0, k + 1));
            }
            k = k + 1;
        }
        proof {
            assert(self.sessions@.subrange(0, self.sessions@.len() as int) =~= self.sessions@);
        }
        out
    }

    /// Forgets the session with identifier `id`, if there is one.
    pub fn close_session(&mut self, id: &str) -> (r: bool)
        ensures
            r == (session_index(old(self)@, id@) >= 0),
            final(self)@ == sessions_without(old(self)@, id@),
            session_index(final(self)@, id@) < 0,
            final(self).issued() == old(self).issued(),
    {
        proof {
            use_type_invariant(&*self);
            lemma_session_index(self@, id@);
        }
        let ghost all = self.sessions@;
        let len = self.sessions.len();
        let mut rest: Vec<GDBSession> = Vec::new();
        core::mem::swap(&mut rest, &mut self.sessions);
        let mut out: Vec<GDBSession> = Vec::new();
        let mut found = false;
        let mut k: usize = 0;
        proof {
            assert(all.subrange(0, 0) =~= Seq::<GDBSession>::empty());
        }
        while rest.len() > 0
            invariant
                k + rest@.len() == len,
                len == all.len(),
                rest@ == all.subrange(k as int, len as int),
                out@ == sessions_without(all.subrange(0, k as int), id@),
                found == exists|i: int| 0 <= i < k && all[i].id@ == id@,
            decreases rest@.len(),
        {
            let ghost rest_before = rest@;
            let s = rest.remove(0);
            proof {
                assert(rest_before[0] == all[k as int]);
                assert(rest@ =~= all.subrange(k + 1, len as int));
                let pre = all.subrange(0, k + 1);
                assert(pre.drop_last() =~= all.subrange(0, k as int));
                assert(pre.last() == s);
            }
            if str_eq(s.id.as_str(), id) {
                found = true;
            } else {
                out.push(s);
            }
            k = k + 1;
        }
        proof {
            assert(all.subrange(0, len as int) =~= all);
            lemma_sessions_without_unique(all, id@);
            lemma_without_absent(all, id@);
            assert forall|i: int| 0 <= i < out@.len() implies self.issued().contains(
                #[trigger] out@[i].id@,
            ) by {
                assert(all.contains(out@[i]));
                let j = choose|j: int| 0 <= j < all.len() && all[j] == out@[i];
                assert(self.issued().contains(all[j].id@));
            }
            if found {
                let i = choose|i: int| 0 <= i < len && all[i].id@ == id@;
                assert(session_index(all, id@) >= 0);
            } else {
                assert(session_index(all, id@) < 0);
            }
        }
        self.sessions = out;
        found
    }

    /// Updates the status of the session with identifier `id` from a line of
    /// its output.
    pub fn observe_output(&mut self, id: &str, out: &Output)
        ensures
            session_index(old(self)@, id@) >= 0 ==> final(self)@ == old(self)@.update(
                session_index(old(self)@, id@),
                GDBSession {
                    status: status_after(old(self)@[session_index(old(self)@, id@)].status, *out),
                    ..old(self)@[session_index(old(self)@, id@)]
                },
            ),
            session_index(old(self)@, id@) < 0 ==> final(self)@ == old(self)@,
            final(self).issued() == old(self).issued(),
    {
        match self.get_session(id) {
            Ok(current) => {
                let st = next_status(current.status, out);
                self.set_status(id, st);
            },
            Err(_) => {},
        }
    }

    /// Sets the status of the session with identifier `id`, if there is one.
    pub fn set_status(&mut self, id: &str, status: GDBSessionStatus)
        ensures
            session_index(old(self)@, id@) >= 0 ==> final(self)@ == old(self)@.update(
                session_index(old(self)@, id@),
                GDBSession { status, ..old(self)@[session_index(old(self)@, id@)] },
            ),
            session_index(old(self)@, id@) < 0 ==> final(self)@ == old(self)@,
            final(self).issued() == old(self).issued(),
    {
        proof {
            use_type_invariant(&*self);
            lemma_session_index(self@, id@);
        }
        match self.find(id) {
            Some(i) => {
                proof {
                    if session_index(self@, id@) != i {
                        let j = session_index(self@, id@);
                        if j < i {
                            assert(self@[j].id@ != self@[i as int].id@);
                        } else {
                            assert(self@[i as int].id@ != self@[j].id@);
                        }
                    }
                }
                let ghost before = self.sessions@;
                let updated = GDBSession {
                    id: self.sessions[i].id.clone(),
                    status,
                    created_at: self.sessions[i].created_at,
                };
                let mut all: Vec<GDBSession> = Vec::new();
                core::mem::swap(&mut all, &mut self.sessions);
                all.set(i, updated);
                proof {
                    assert forall|a: int, b: int| 0 <= a < b < all@.len() implies all@[a].id@
                        != all@[b].id@ by {
                        assert(before[a].id@ != before[b].id@);
                    }
                    assert forall|a: int| 0 <= a < all@.len() implies self.issued().contains(
                        #[trigger] all@[a].id@,
                    ) by {
                        assert(self.issued().contains(before[a].id@));
                    }
                }
                self.sessions = all;
            },
            None => {},
        }
    }
}

proof fn lemma_sessions_without_unique(s: Seq<GDBSession>, id: Seq<char>)
    requires
        ids_unique(s),
    ensures
        ids_unique(sessions_without(s, id)),
        forall|i: int|
            0 <= i < sessions_without(s, id).len() ==> s.contains(
                #[trigger] sessions_without(s, id)[i],
            ),
    decreases s.len(),
{
    if s.len() > 0 {
        let d = s.drop_last();
        assert(ids_unique(d)) by {
            assert forall|i: int, j: int| 0 <= i < j < d.len() implies d[i].id@ != d[j].id@ by {
                assert(d[i] == s[i] && d[j] == s[j]);
            }
        }
        lemma_sessions_without_unique(d, id);
        let w = sessions_without(d, id);
        assert forall|i: int| 0 <= i < w.len() implies s.contains(#[trigger] w[i]) by {
            assert(d.contains(w[i]));
            let j = choose|j: int| 0 <= j < d.len() && d[j] == w[i];
            assert(s[j] == w[i]);
        }
        if s.last().id@ != id {
            let w2 = w.push(s.last());
            assert forall|i: int, j: int| 0 <= i < j < w2.len() implies w2[i].id@ != w2[j].id@ by {
                if j == w.len() {
                    assert(d.contains(w[i]));
                    let m = choose|m: int| 0 <= m < d.len() && d[m] == w[i];
                    assert(s[m] == w[i]);
                    assert(s[m].id@ != s[s.len() - 1].id@);
                } else {
                    assert(w2[i] == w[i] && w2[j] == w[j]);
                }
            }
            assert forall|i: int| 0 <= i < w2.len() implies s.contains(#[trigger] w2[i]) by {
                if i == w.len() {
                    assert(s[s.len() - 1] == w2[i]);
                } else {
                    assert(w2[i] == w[i]);
                }
            }
        }
    }
}

} // verus!
