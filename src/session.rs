//! Session records and the registry of live sessions.
//!
//! The registry decides; the host performs. Terminal resources (the
//! pseudo-terminal master, the writer, the child) live with the host under
//! a handle number; the registry maps each session id to its record and
//! handle, and says for every request what is to be done.

use vstd::prelude::*;
use crate::scraper::{TokenScraper, UsageCapture, fresh_entry};
use crate::text::opt_chars;

verus! {

/// An RFC 3339 rendering of a UTC instant given as seconds and nanoseconds
/// since the Unix epoch, or `None` when the instant is out of range.
pub uninterp spec fn rfc3339_text(secs: i64, nanos: u32) -> Option<Seq<char>>;

/// Relies on `chrono::DateTime::<Utc>::from_timestamp` and
/// `chrono::DateTime::to_rfc3339`: renders the instant.
#[verifier::external_body]
fn rfc3339_of(secs: i64, nanos: u32) -> (r: Option<String>)
    ensures
        opt_chars(r) == rfc3339_text(secs, nanos),
{
    chrono::DateTime::<chrono::Utc>::from_timestamp(secs, nanos).map(|t| t.to_rfc3339())
}

/// A snapshot of one session, as listed to callers.
pub struct SessionInfo {
    pub session_id: String,
    pub shell: String,
    pub cwd: String,
    pub pid: i64,
    pub started_at: String,
}

/// A live session: its metadata and the handle of its terminal resources.
pub struct PtySession {
    pub session_id: String,
    pub shell: String,
    pub cwd: String,
    pub pid: i64,
    pub started_secs: i64,
    pub started_nanos: u32,
    pub handle: u64,
}

/// What the registry knows of a session.
pub struct SessionView {
    pub shell: Seq<char>,
    pub cwd: Seq<char>,
    pub pid: int,
    pub started_secs: i64,
    pub started_nanos: u32,
    pub handle: u64,
}

/// The text a session's start time is listed with: RFC 3339, or empty when
/// the instant cannot be rendered.
pub open spec fn started_text(secs: i64, nanos: u32) -> Seq<char> {
    match rfc3339_text(secs, nanos) {
        Some(t) => t,
        None => Seq::empty(),
    }
}

impl PtySession {
    pub fn new(
        session_id: String,
        shell: String,
        cwd: String,
        pid: i64,
        started_secs: i64,
        started_nanos: u32,
        handle: u64,
    ) -> (r: PtySession)
        ensures
            r.session_id == session_id,
            r.shell == shell,
            r.cwd == cwd,
            r.pid == pid,
            r.started_secs == started_secs,
            r.started_nanos == started_nanos,
            r.handle == handle,
    {
        PtySession { session_id, shell, cwd, pid, started_secs, started_nanos, handle }
    }

    pub open spec fn view(&self) -> SessionView {
        SessionView {
            shell: self.shell@,
            cwd: self.cwd@,
            pid: self.pid as int,
            started_secs: self.started_secs,
            started_nanos: self.started_nanos,
            handle: self.handle,
        }
    }

    /// The listed snapshot of this session.
    pub fn info(&self) -> (r: SessionInfo)
        ensures
            r.session_id@ == self.session_id@,
            r.shell@ == self.shell@,
            r.cwd@ == self.cwd@,
            r.pid == self.pid,
            r.started_at@ == started_text(self.started_secs, self.started_nanos),
    {
        let started_at = match rfc3339_of(self.started_secs, self.started_nanos) {
            Some(t) => t,
            None => String::new(),
        };
        SessionInfo {
            session_id: self.session_id.clone(),
            shell: self.shell.clone(),
            cwd: self.cwd.clone(),
            pid: self.pid,
            started_at,
        }
    }

    /// The handle under which the host keeps this session's resources.
    pub fn handle(&self) -> (r: u64)
        ensures
            r == self.handle,
    {
        self.handle
    }
}

/// Why a request on the registry was refused.
#[derive(PartialEq, Eq, Structural, Debug, Clone, Copy)]
pub enum SessionError {
    /// No live session has this id.
    NotFound,
    /// A live session already has this id.
    AlreadyExists,
}

/// The code an exit notice carries when the session was killed on request
/// or its exit status could not be read.
pub const KILLED_CODE: i32 = -1;

/// An exit notice to publish: at most one per session.
pub struct ExitNotice {
    pub session_id: String,
    pub code: i32,
}

/// A notice in the model: whose, and with which code.
pub struct Notice {
    pub session: Seq<char>,
    pub code: int,
}

pub open spec fn notice_view(n: ExitNotice) -> Notice {
    Notice { session: n.session_id@, code: n.code as int }
}

pub open spec fn opt_notice(o: Option<ExitNotice>) -> Option<Notice> {
    match o {
        Some(n) => Some(notice_view(n)),
        None => None,
    }
}

/// The exit code reported for a wait outcome: the child's status clamped to
/// `i32::MAX`, or `KILLED_CODE` when waiting failed.
pub open spec fn exit_code_of(status: Option<u32>) -> int {
    match status {
        Some(c) => if c as int > i32::MAX as int {
            i32::MAX as int
        } else {
            c as int
        },
        None => KILLED_CODE as int,
    }
}

pub fn exit_code(status: Option<u32>) -> (r: i32)
    ensures
        r as int == exit_code_of(status),
{
    match status {
        Some(c) => if c > 2147483647 {
            i32::MAX
        } else {
            c as i32
        },
        None => KILLED_CODE,
    }
}

/// The registry after a spawn of `s` under `id`: unchanged (and refused)
/// when `id` is taken.
pub open spec fn spawn_result(m: Map<Seq<char>, SessionView>, id: Seq<char>, s: SessionView) -> (
    Map<Seq<char>, SessionView>,
    bool,
) {
    if m.contains_key(id) {
        (m, false)
    } else {
        (m.insert(id, s), true)
    }
}

/// The registry after a kill request, and the notice it publishes.
pub open spec fn kill_result(m: Map<Seq<char>, SessionView>, id: Seq<char>) -> (
    Map<Seq<char>, SessionView>,
    Option<Notice>,
) {
    if m.contains_key(id) {
        (m.remove(id), Some(Notice { session: id, code: KILLED_CODE as int }))
    } else {
        (m, None)
    }
}

/// The registry after the child of `id` was seen to exit, and the notice it
/// publishes: none when the session was already gone.
pub open spec fn exit_result(m: Map<Seq<char>, SessionView>, id: Seq<char>, status: Option<u32>) -> (
    Map<Seq<char>, SessionView>,
    Option<Notice>,
) {
    if m.contains_key(id) {
        (m.remove(id), Some(Notice { session: id, code: exit_code_of(status) }))
    } else {
        (m, None)
    }
}

/// What the reading side of a session's terminal returned.
pub enum ReadEvent {
    /// Bytes were read (possibly none, which means end of stream).
    Data(Vec<u8>),
    /// The read failed.
    Failed,
}

/// What the output relay does with one read: a chunk is published exactly
/// as read and then fed to the scraper (`PtyManager::ingest`) before the
/// next read, so what was scraped is always a prefix of what was published.
pub struct RelayAction {
    /// Bytes to publish, then to scrape.
    pub forward: Option<Vec<u8>>,
    /// The relay ends: the stream is closed or failed.
    pub stop: bool,
}

/// Decides on one read: a non-empty chunk goes on; an empty read (end of
/// stream) or a failure ends the relay.
pub fn relay_step(event: ReadEvent) -> (r: RelayAction)
    ensures
        match event {
            ReadEvent::Data(b) => if b.len() > 0 {
                !r.stop && r.forward == Some(b)
            } else {
                r.stop && r.forward is None
            },
            ReadEvent::Failed => r.stop && r.forward is None,
        },
{
    match event {
        ReadEvent::Data(b) => {
            if b.len() > 0 {
                RelayAction { forward: Some(b), stop: false }
            } else {
                RelayAction { forward: None, stop: true }
            }
        },
        ReadEvent::Failed => RelayAction { forward: None, stop: true },
    }
}

/// The registry of live sessions, and the scraper fed by their output.
pub struct PtyManager {
    sessions: Vec<PtySession>,
    scraper: TokenScraper,
}

impl PtyManager {
    pub closed spec fn ids_unique(&self) -> bool {
        forall|i: int, j: int|
            0 <= i < self.sessions.len() && 0 <= j < self.sessions.len() && i != j
                ==> #[trigger] self.sessions@[i].session_id@ != #[trigger] self.sessions@[j].session_id@
    }

    pub closed spec fn wf(&self) -> bool {
        self.ids_unique() && self.scraper.wf()
    }

    pub closed spec fn has(&self, id: Seq<char>) -> bool {
        exists|i: int| 0 <= i < self.sessions.len() && #[trigger] self.sessions@[i].session_id@ == id
    }

    pub closed spec fn record(&self, id: Seq<char>) -> SessionView {
        let i = choose|i: int|
            0 <= i < self.sessions.len() && #[trigger] self.sessions@[i].session_id@ == id;
        self.sessions@[i].view()
    }

    /// The live sessions by id.
    pub closed spec fn view(&self) -> Map<Seq<char>, SessionView> {
        Map::new(|id: Seq<char>| self.has(id), |id: Seq<char>| self.record(id))
    }

    /// The scraper's state, which the registry's requests leave alone but
    /// for the sessions they end.
    pub closed spec fn scrape_state(&self) -> TokenScraper {
        self.scraper
    }

    pub fn new() -> (r: PtyManager)
        ensures
            r.wf(),
            r@ == Map::<Seq<char>, SessionView>::empty(),
            forall|id: Seq<char>| #[trigger] r.scrape_state().entry(id) == fresh_entry(),
    {
        let r = PtyManager { sessions: Vec::new(), scraper: TokenScraper::new() };
        assert(r@ =~= Map::<Seq<char>, SessionView>::empty());
        r
    }

    proof fn lemma_after_push(&self, prev: &PtyManager, s: PtySession)
        requires
            prev.ids_unique(),
            !prev@.contains_key(s.session_id@),
            self.sessions@ == prev.sessions@.push(s),
        ensures
            self.ids_unique(),
            self@ == prev@.insert(s.session_id@, s.view()),
    {
        let a = self.sessions@;
        let n = prev.sessions@.len();
        let id = s.session_id@;
        assert forall|i: int, j: int|
            0 <= i < a.len() && 0 <= j < a.len() && i != j implies #[trigger] a[i].session_id@
            != #[trigger] a[j].session_id@ by {
            if i < n {
                assert(a[i] == prev.sessions@[i]);
            }
            if j < n {
                assert(a[j] == prev.sessions@[j]);
            }
            if i < n && j == n {
                assert(prev.has(a[i].session_id@));
            }
            if j < n && i == n {
                assert(prev.has(a[j].session_id@));
            }
        }
        assert forall|k: Seq<char>| #[trigger] self@.contains_key(k) == prev@.insert(id, s.view()).contains_key(k) by {
            if self.has(k) {
                let c = choose|c: int| 0 <= c < a.len() && #[trigger] a[c].session_id@ == k;
                if c < n {
                    assert(a[c] == prev.sessions@[c]);
                    assert(prev.has(k));
                }
            }
            if prev.has(k) {
                let c = choose|c: int| 0 <= c < n && #[trigger] prev.sessions@[c].session_id@ == k;
                assert(a[c] == prev.sessions@[c]);
                assert(self.has(k));
            }
            if k == id {
                assert(a[n as int].session_id@ == k);
            }
        }
        assert forall|k: Seq<char>| self@.contains_key(k) implies #[trigger] self@[k] == prev@.insert(id, s.view())[k] by {
            let c = choose|c: int| 0 <= c < a.len() && #[trigger] a[c].session_id@ == k;
            if k == id {
                if c < n {
                    assert(a[c] == prev.sessions@[c]);
                    assert(prev.has(k));
                }
                assert(c == n);
            } else {
                assert(c != n);
                assert(a[c] == prev.sessions@[c]);
                assert(prev.has(k));
                let d = choose|d: int| 0 <= d < n && #[trigger] prev.sessions@[d].session_id@ == k;
                assert(a[d] == prev.sessions@[d]);
                assert(c == d);
            }
        }
        assert(self@ =~= prev@.insert(id, s.view()));
    }

    proof fn lemma_after_remove(&self, prev: &PtyManager, i: int)
        requires
            prev.ids_unique(),
            0 <= i < prev.sessions.len(),
            self.sessions@ == prev.sessions@.remove(i),
        ensures
            self.ids_unique(),
            self@ == prev@.remove(prev.sessions@[i].session_id@),
    {
        let a = self.sessions@;
        let p = prev.sessions@;
        let id = p[i].session_id@;
        assert forall|x: int, y: int|
            0 <= x < a.len() && 0 <= y < a.len() && x != y implies #[trigger] a[x].session_id@
            != #[trigger] a[y].session_id@ by {
            let px = if x < i { x } else { x + 1 };
            let py = if y < i { y } else { y + 1 };
            assert(a[x] == p[px]);
            assert(a[y] == p[py]);
        }
        assert forall|k: Seq<char>| #[trigger] self@.contains_key(k) == prev@.remove(id).contains_key(k) by {
            if self.has(k) {
                let c = choose|c: int| 0 <= c < a.len() && #[trigger] a[c].session_id@ == k;
                let pc = if c < i { c } else { c + 1 };
                assert(a[c] == p[pc]);
                assert(prev.has(k));
            }
            if prev.has(k) && k != id {
                let c = choose|c: int| 0 <= c < p.len() && #[trigger] p[c].session_id@ == k;
                assert(c != i);
                let ac = if c < i { c } else { c - 1 };
                assert(a[ac] == p[c]);
                assert(self.has(k));
            }
        }
        assert forall|k: Seq<char>| self@.contains_key(k) implies #[trigger] self@[k] == prev@.remove(id)[k] by {
            let c = choose|c: int| 0 <= c < a.len() && #[trigger] a[c].session_id@ == k;
            let pc = if c < i { c } else { c + 1 };
            assert(a[c] == p[pc]);
            assert(prev.has(k));
            let d = choose|d: int| 0 <= d < p.len() && #[trigger] p[d].session_id@ == k;
            assert(d == pc);
        }
        assert(self@ =~= prev@.remove(id));
    }

    fn find(&self, id: &str) -> (r: Option<usize>)
        ensures
            match r {
                Some(i) => i < self.sessions.len() && self.sessions@[i as int].session_id@ == id@,
                None => !self.has(id@),
            },
    {
        let key = id.to_owned();
        let mut i: usize = 0;
        while i < self.sessions.len()
            invariant
                i <= self.sessions.len(),
                key@ == id@,
                forall|j: int| 0 <= j < i ==> #[trigger] self.sessions@[j].session_id@ != id@,
            decreases self.sessions.len() - i,
        {
            if self.sessions[i].session_id == key {
                return Some(i);
            }
            i = i + 1;
        }
        None
    }

    /// Registers a freshly spawned session. A taken id is refused: the
    /// session that holds it stays, and nothing changes.
    pub fn register(&mut self, s: PtySession) -> (r: Result<(), SessionError>)
        requires
            old(self).wf(),
        ensures
            final(self).wf(),
            (final(self)@, r is Ok) == spawn_result(old(self)@, s.session_id@, s.view()),
            r is Err ==> r == Err::<(), SessionError>(SessionError::AlreadyExists),
            final(self).scrape_state() == old(self).scrape_state(),
    {
        match self.find(s.session_id.as_str()) {
            Some(_) => Err(SessionError::AlreadyExists),
            None => {
                let ghost prev = *self;
                self.sessions.push(s);
                proof {
                    self.lemma_after_push(&prev, s);
                }
                Ok(())
            },
        }
    }

    /// The handle of a live session, for writing to it or resizing it.
    pub fn lookup(&self, id: &str) -> (r: Result<u64, SessionError>)
        requires
            self.wf(),
        ensures
            match r {
                Ok(h) => self@.contains_key(id@) && h == self@[id@].handle,
                Err(e) => !self@.contains_key(id@) && e == SessionError::NotFound,
            },
    {
        match self.find(id) {
            Some(i) => {
                proof {
                    let c = choose|c: int|
                        0 <= c < self.sessions.len() && #[trigger] self.sessions@[c].session_id@
                            == id@;
                    assert(c == i);
                }
                Ok(self.sessions[i].handle)
            },
            None => Err(SessionError::NotFound),
        }
    }

    fn remove_session(&mut self, id: &str) -> (r: Option<PtySession>)
        requires
            old(self).wf(),
        ensures
            final(self).ids_unique(),
            final(self).scraper == old(self).scraper,
            match r {
                Some(s) => old(self)@.contains_key(id@) && s.session_id@ == id@ && s.view()
                    == old(self)@[id@] && final(self)@ == old(self)@.remove(id@),
                None => !old(self)@.contains_key(id@) && final(self)@ == old(self)@,
            },
    {
        match self.find(id) {
            Some(i) => {
                let ghost prev = *self;
                let s = self.sessions.remove(i);
                proof {
                    let c = choose|c: int|
                        0 <= c < prev.sessions.len() && #[trigger] prev.sessions@[c].session_id@
                            == id@;
                    assert(c == i);
                    self.lemma_after_remove(&prev, i as int);
                }
                Some(s)
            },
            None => None,
        }
    }

    /// Ends a session on request: it leaves the registry at once, its
    /// scraping state is dropped, and its exit notice carries
    /// `KILLED_CODE`. An unknown id is refused and nothing changes.
    pub fn kill(&mut self, id: &str) -> (r: Result<(ExitNotice, u64), SessionError>)
        requires
            old(self).wf(),
        ensures
            final(self).wf(),
            match r {
                Ok((n, h)) => (final(self)@, Some(notice_view(n))) == kill_result(old(self)@, id@)
                    && h == old(self)@[id@].handle && final(self).scrape_state().entry(id@)
                    == fresh_entry() && forall|x: Seq<char>|
                    x != id@ ==> #[trigger] final(self).scrape_state().entry(x) == old(self).scrape_state().entry(x),
                Err(e) => e == SessionError::NotFound && (final(self)@, None::<Notice>)
                    == kill_result(old(self)@, id@) && final(self).scrape_state() == old(self).scrape_state(),
            },
    {
        match self.remove_session(id) {
            Some(s) => {
                self.scraper.forget(id);
                Ok((ExitNotice { session_id: s.session_id, code: KILLED_CODE }, s.handle))
            },
            None => Err(SessionError::NotFound),
        }
    }

    /// Records that a session's child exited with `status` (`None`: the wait
    /// failed). The session leaves the registry and a notice is due, unless
    /// it had already left, as after a kill: then nothing happens.
    pub fn exited(&mut self, id: &str, status: Option<u32>) -> (r: Option<ExitNotice>)
        requires
            old(self).wf(),
        ensures
            final(self).wf(),
            (final(self)@, opt_notice(r)) == exit_result(old(self)@, id@, status),
            forall|x: Seq<char>|
                x != id@ ==> #[trigger] final(self).scrape_state().entry(x) == old(self).scrape_state().entry(x),
            r is Some ==> final(self).scrape_state().entry(id@) == fresh_entry(),
            r is None ==> final(self).scrape_state() == old(self).scrape_state(),
    {
        match self.remove_session(id) {
            Some(s) => {
                self.scraper.forget(id);
                Some(ExitNotice { session_id: s.session_id, code: exit_code(status) })
            },
            None => None,
        }
    }

    /// Snapshots of every live session, one per session.
    pub fn list(&self) -> (r: Vec<SessionInfo>)
        requires
            self.wf(),
        ensures
            forall|k: Seq<char>|
                self@.contains_key(k) <==> exists|i: int|
                    0 <= i < r.len() && #[trigger] r@[i].session_id@ == k,
            forall|i: int|
                0 <= i < r.len() ==> {
                    let k = #[trigger] r@[i].session_id@;
                    &&& r@[i].shell@ == self@[k].shell
                    &&& r@[i].cwd@ == self@[k].cwd
                    &&& r@[i].pid as int == self@[k].pid
                    &&& r@[i].started_at@ == started_text(
                        self@[k].started_secs,
                        self@[k].started_nanos,
                    )
                },
            forall|i: int, j: int|
                0 <= i < r.len() && 0 <= j < r.len() && i != j ==> #[trigger] r@[i].session_id@
                    != #[trigger] r@[j].session_id@,
    {
        let mut out: Vec<SessionInfo> = Vec::new();
        let mut i: usize = 0;
        while i < self.sessions.len()
            invariant
                i <= self.sessions.len(),
                self.wf(),
                out.len() == i,
                forall|j: int|
                    0 <= j < i ==> {
                        let s = self.sessions@[j];
                        let o = #[trigger] out@[j];
                        &&& o.session_id@ == s.session_id@
                        &&& o.shell@ == s.shell@
                        &&& o.cwd@ == s.cwd@
                        &&& o.pid == s.pid
                        &&& o.started_at@ == started_text(s.started_secs, s.started_nanos)
                    },
            decreases self.sessions.len() - i,
        {
            let info = self.sessions[i].info();
            out.push(info);
            i = i + 1;
        }
        proof {
            assert forall|k: Seq<char>|
                self@.contains_key(k) <==> exists|i: int|
                    0 <= i < out.len() && #[trigger] out@[i].session_id@ == k by {
                if self.has(k) {
                    let c = choose|c: int|
                        0 <= c < self.sessions.len() && #[trigger] self.sessions@[c].session_id@
                            == k;
                    assert(out@[c].session_id@ == k);
                }
                if exists|i: int| 0 <= i < out.len() && #[trigger] out@[i].session_id@ == k {
                    let c = choose|i: int| 0 <= i < out.len() && #[trigger] out@[i].session_id@ == k;
                    assert(self.sessions@[c].session_id@ == k);
                }
            }
            assert forall|i: int| 0 <= i < out.len() implies {
                let k = #[trigger] out@[i].session_id@;
                &&& out@[i].shell@ == self@[k].shell
                &&& out@[i].cwd@ == self@[k].cwd
                &&& out@[i].pid as int == self@[k].pid
                &&& out@[i].started_at@ == started_text(
                    self@[k].started_secs,
                    self@[k].started_nanos,
                )
            } by {
                let k = out@[i].session_id@;
                assert(self.sessions@[i].session_id@ == k);
                assert(self.has(k));
                let c = choose|c: int|
                    0 <= c < self.sessions.len() && #[trigger] self.sessions@[c].session_id@ == k;
                assert(c == i);
            }
            assert forall|i: int, j: int|
                0 <= i < out.len() && 0 <= j < out.len() && i != j implies #[trigger] out@[i].session_id@
                != #[trigger] out@[j].session_id@ by {
                assert(self.sessions@[i].session_id@ != self.sessions@[j].session_id@);
            }
        }
        out
    }

    /// Feeds a chunk of a session's output, already published, to the
    /// scraper, and returns the records it completes.
    pub fn ingest(&mut self, id: &str, data: &[u8]) -> (r: Vec<UsageCapture>)
        requires
            old(self).wf(),
        ensures
            final(self).wf(),
            final(self)@ == old(self)@,
            ({
                let text = crate::scraper::utf8_lossy(crate::scraper::ansi_stripped(data@));
                let (lines, pending) = crate::lines::feed(
                    Seq::empty(),
                    old(self).scrape_state().entry(id@).0,
                    text,
                );
                let (t, rs) = crate::scraper::run_lines(
                    id@,
                    old(self).scrape_state().entry(id@).1,
                    lines,
                );
                &&& final(self).scrape_state().entry(id@) == (pending, t)
                &&& crate::scraper::usages_view(r@) == rs
            }),
            forall|x: Seq<char>|
                x != id@ ==> #[trigger] final(self).scrape_state().entry(x) == old(
                    self,
                ).scrape_state().entry(x),
    {
        let r = self.scraper.ingest(id, data);
        assert(self.sessions@ == old(self).sessions@);
        assert forall|k: Seq<char>| #[trigger] self@.contains_key(k) == old(self)@.contains_key(k) by {
            assert(self.has(k) == old(self).has(k));
        }
        assert forall|k: Seq<char>| self@.contains_key(k) implies #[trigger] self@[k] == old(self)@[k] by {
            assert(self.record(k) == old(self).record(k));
        }
        assert(self@ =~= old(self)@);
        r
    }

    /// The scraper fed by this registry's sessions.
    pub fn scraper(&self) -> (r: &TokenScraper)
        ensures
            *r == self.scrape_state(),
    {
        &self.scraper
    }
}

/// A kill and a natural exit of one session, in either order, publish
/// exactly one exit notice between them, and the session leaves the
/// registry once: the later of the two finds nothing and does nothing.
pub proof fn lemma_kill_exit_race(m: Map<Seq<char>, SessionView>, id: Seq<char>, status: Option<u32>)
    requires
        m.contains_key(id),
    ensures
        ({
            let (m1, n1) = kill_result(m, id);
            let (m2, n2) = exit_result(m1, id, status);
            &&& n1 is Some && n2 is None
            &&& m1 == m.remove(id) && m2 == m1
        }),
        ({
            let (m1, n1) = exit_result(m, id, status);
            let (m2, n2) = kill_result(m1, id);
            &&& n1 is Some && n2 is None
            &&& m1 == m.remove(id) && m2 == m1
        }),
{
}

/// A session is listed as soon as its spawn succeeds, and no longer listed
/// once an exit notice for it is due.
pub proof fn lemma_listing_follows_lifecycle(
    m: Map<Seq<char>, SessionView>,
    id: Seq<char>,
    s: SessionView,
    status: Option<u32>,
)
    ensures
        spawn_result(m, id, s).1 ==> spawn_result(m, id, s).0.contains_key(id),
        kill_result(m, id).1 is Some ==> !kill_result(m, id).0.contains_key(id),
        exit_result(m, id, status).1 is Some ==> !exit_result(m, id, status).0.contains_key(id),
{
}

/// Requests on an id that is not registered are refused and change nothing.
pub proof fn lemma_unknown_id_untouched(m: Map<Seq<char>, SessionView>, id: Seq<char>, status: Option<u32>)
    requires
        !m.contains_key(id),
    ensures
        kill_result(m, id) == (m, None::<Notice>),
        exit_result(m, id, status) == (m, None::<Notice>),
{
}

} // verus!
