//! The decisions of the reconnecting, fail-open daemon client that the
//! adapters use: local handles for IM contexts, lazy (re)creation of daemon
//! sessions, and a cooldown after failures during which the daemon is not
//! called at all.
//!
//! The client itself performs no calls: each operation says which daemon
//! call to make next, and is resumed with the daemon's reply.  Times are
//! milliseconds on a monotonic clock.

use vstd::prelude::*;

use crate::ipc::reconnect::{current_cooldown, spec_cooldown, ProcessKeyError};
use crate::ipc::{IpcAction, IpcActionView, SessionId, ACTION_SESSION_INVALID};

verus! {

/// One IM context: its local handle, the application that owns it, and its
/// daemon session (0 while there is none).
pub struct SessionEntry {
    pub handle: u32,
    pub app_id: String,
    pub daemon_id: SessionId,
}

pub struct HandleView {
    pub handle: u32,
    pub app_id: Seq<char>,
    pub daemon_id: SessionId,
}

impl View for SessionEntry {
    type V = HandleView;

    open spec fn view(&self) -> HandleView {
        HandleView { handle: self.handle, app_id: self.app_id@, daemon_id: self.daemon_id }
    }
}

pub open spec fn handles_view(v: Seq<SessionEntry>) -> Seq<HandleView> {
    v.map_values(|e: SessionEntry| e@)
}

/// Mathematical form of a [`ClientState`].
pub struct ClientView {
    pub handles: Seq<HandleView>,
    pub failures: u32,
    pub last_failure: Option<u64>,
    pub next_handle: u32,
}

/// The state of the client.
pub struct ClientState {
    entries: Vec<SessionEntry>,
    failures: u32,
    last_failure: Option<u64>,
    next_handle: u32,
}

impl View for ClientState {
    type V = ClientView;

    closed spec fn view(&self) -> ClientView {
        ClientView {
            handles: handles_view(self.entries@),
            failures: self.failures,
            last_failure: self.last_failure,
            next_handle: self.next_handle,
        }
    }
}

/// No two entries share a handle.
pub open spec fn handles_distinct(hs: Seq<HandleView>) -> bool {
    forall|i: int, j: int| 0 <= i < j < hs.len() ==> hs[i].handle != hs[j].handle
}

/// Position of the entry of `h`.
pub open spec fn find_handle(hs: Seq<HandleView>, h: u32) -> Option<int>
    decreases hs.len(),
{
    if hs.len() == 0 {
        None
    } else if hs.last().handle == h {
        Some(hs.len() - 1)
    } else {
        find_handle(hs.drop_last(), h)
    }
}

/// The daemon session of `h`, if `h` is registered.
pub open spec fn daemon_id_of(v: ClientView, h: u32) -> Option<SessionId> {
    match find_handle(v.handles, h) {
        Some(i) => Some(v.handles[i].daemon_id),
        None => None,
    }
}

/// Whether the daemon is left alone at `now`: a failure was recorded less
/// than the cooldown of the failure count ago.
pub open spec fn spec_in_cooldown(v: ClientView, now: u64) -> bool {
    match v.last_failure {
        Some(t) => (if now >= t { now - t } else { 0 }) < spec_cooldown(v.failures),
        None => false,
    }
}

/// After a failed call: one more failure at `now`, and every daemon session
/// forgotten so that it is created again after recovery.
pub open spec fn failed(v: ClientView, now: u64) -> ClientView {
    ClientView {
        handles: v.handles.map_values(|e: HandleView| HandleView { daemon_id: 0, ..e }),
        failures: if v.failures == u32::MAX { u32::MAX } else { (v.failures + 1) as u32 },
        last_failure: Some(now),
        ..v
    }
}

/// After a successful call: no failures.
pub open spec fn recovered(v: ClientView) -> ClientView {
    ClientView { failures: 0, last_failure: None, ..v }
}

/// `h` now has the daemon session `id` (if `h` is registered).
pub open spec fn with_daemon_id(v: ClientView, h: u32, id: SessionId) -> ClientView {
    match find_handle(v.handles, h) {
        Some(i) => ClientView { handles: v.handles.update(i, HandleView { daemon_id: id, ..v.handles[i] }), ..v },
        None => v,
    }
}

/// `e` registered, replacing an entry of the same handle.
pub open spec fn put_handle(hs: Seq<HandleView>, e: HandleView) -> Seq<HandleView> {
    match find_handle(hs, e.handle) {
        Some(i) => hs.update(i, e),
        None => hs.push(e),
    }
}

/// The next daemon call of an operation, or its result.
pub enum KeyStep {
    /// Create a daemon session for this application.
    CreateSession(String),
    /// Send the key to this daemon session.
    ProcessKey(SessionId),
    /// The key's outcome.
    Done(Result<Vec<IpcAction>, ProcessKeyError>),
}

pub enum KeyStepView {
    CreateSession(Seq<char>),
    ProcessKey(SessionId),
    Done(Result<Seq<IpcActionView>, ProcessKeyError>),
}

pub open spec fn actions_view(v: Seq<IpcAction>) -> Seq<IpcActionView> {
    v.map_values(|a: IpcAction| a@)
}

impl View for KeyStep {
    type V = KeyStepView;

    open spec fn view(&self) -> KeyStepView {
        match self {
            KeyStep::CreateSession(a) => KeyStepView::CreateSession(a@),
            KeyStep::ProcessKey(id) => KeyStepView::ProcessKey(*id),
            KeyStep::Done(Ok(acts)) => KeyStepView::Done(Ok(actions_view(acts@))),
            KeyStep::Done(Err(e)) => KeyStepView::Done(Err(*e)),
        }
    }
}

/// Where a key is in its round trip.
#[derive(Debug, Clone, Copy, PartialEq, Eq, Structural)]
pub enum KeyStage {
    /// Creating the session that the handle did not have yet.
    Ensure,
    /// Sending the key for the first time.
    First,
    /// Creating a new session after the daemon did not know the old one.
    Recreate,
    /// Sending the key again to the new session.
    Retry,
}

/// A reply of the daemon (`Err` when the call failed).
pub enum Reply {
    Created(Result<SessionId, ()>),
    Actions(Result<Vec<IpcAction>, ()>),
}

/// Whether the daemon said that it does not know the session.
pub open spec fn says_session_invalid(acts: Seq<IpcActionView>) -> bool {
    exists|i: int| 0 <= i < acts.len() && #[trigger] acts[i].kind == ACTION_SESSION_INVALID
}

/// What a reply does to a key in `stage`: the next stage and step, and the
/// client after it.
pub open spec fn key_after(
    v: ClientView,
    handle: u32,
    stage: KeyStage,
    reply: Reply,
    now: u64,
) -> (KeyStage, KeyStepView, ClientView) {
    let unavailable = KeyStepView::Done(Err(ProcessKeyError::Unavailable));
    match reply {
        Reply::Created(Ok(id)) => (
            if stage == KeyStage::Ensure { KeyStage::First } else { KeyStage::Retry },
            KeyStepView::ProcessKey(id),
            with_daemon_id(v, handle, id),
        ),
        Reply::Created(Err(_)) => (stage, unavailable, failed(v, now)),
        Reply::Actions(Ok(acts)) => if stage == KeyStage::First && says_session_invalid(actions_view(acts@)) {
            match find_handle(v.handles, handle) {
                Some(i) => (KeyStage::Recreate, KeyStepView::CreateSession(v.handles[i].app_id), v),
                None => (stage, unavailable, failed(v, now)),
            }
        } else {
            (stage, KeyStepView::Done(Ok(actions_view(acts@))), recovered(v))
        },
        Reply::Actions(Err(_)) => (stage, unavailable, failed(v, now)),
    }
}

/// The handle after `h` (handles wrap around).
pub open spec fn handle_after(h: u32) -> u32 {
    if h == u32::MAX { 0 } else { (h + 1) as u32 }
}

/// A new handle for `app_id`: its daemon session is what the daemon
/// created (`created`), or none when the daemon was not asked (`None`,
/// during a cooldown) or the call failed, which counts as a failure.
pub open spec fn after_create(v: ClientView, app_id: Seq<char>, created: Option<Result<SessionId, ()>>, now: u64) -> ClientView {
    let v1 = match created {
        Some(Err(_)) => failed(v, now),
        _ => v,
    };
    let id: SessionId = match created {
        Some(Ok(id)) => id,
        _ => 0,
    };
    ClientView {
        handles: put_handle(v1.handles, HandleView { handle: v.next_handle, app_id, daemon_id: id }),
        next_handle: handle_after(v.next_handle),
        ..v1
    }
}

/// The handles without `h`.
pub open spec fn without_handle(hs: Seq<HandleView>, h: u32) -> Seq<HandleView> {
    match find_handle(hs, h) {
        Some(i) => hs.remove(i),
        None => hs,
    }
}

/// The daemon session to destroy with handle `h` at `now`: only one that
/// exists, and not during a cooldown.
pub open spec fn session_to_destroy(v: ClientView, h: u32, now: u64) -> Option<SessionId> {
    match daemon_id_of(v, h) {
        Some(id) => if id != 0 && !spec_in_cooldown(v, now) { Some(id) } else { None },
        None => None,
    }
}

/// How a key starts: refused during a cooldown or for an unknown handle,
/// else sent to the handle's session, which is created first if needed.
pub open spec fn key_begin(v: ClientView, h: u32, now: u64) -> (KeyStage, KeyStepView) {
    if spec_in_cooldown(v, now) {
        (KeyStage::First, KeyStepView::Done(Err(ProcessKeyError::Unavailable)))
    } else {
        match find_handle(v.handles, h) {
            None => (KeyStage::First, KeyStepView::Done(Err(ProcessKeyError::UnknownHandle))),
            Some(i) => if v.handles[i].daemon_id == 0 {
                (KeyStage::Ensure, KeyStepView::CreateSession(v.handles[i].app_id))
            } else {
                (KeyStage::First, KeyStepView::ProcessKey(v.handles[i].daemon_id))
            },
        }
    }
}

/// A background probe: success clears the failures; a failure counts one
/// more (the daemon sessions were already forgotten).
pub open spec fn after_probe(v: ClientView, ok: bool, now: u64) -> ClientView {
    if ok {
        recovered(v)
    } else {
        ClientView {
            failures: if v.failures == u32::MAX { u32::MAX } else { (v.failures + 1) as u32 },
            last_failure: Some(now),
            ..v
        }
    }
}

impl ClientState {
    #[verifier::type_invariant]
    closed spec fn inv(self) -> bool {
        handles_distinct(handles_view(self.entries@))
    }

    /// A client with no handles and no failures; handles start at 1.
    pub fn new() -> (r: Self)
        ensures
            r@ == (ClientView { handles: Seq::empty(), failures: 0, last_failure: None, next_handle: 1 }),
    {
        let r = ClientState { entries: Vec::new(), failures: 0, last_failure: None, next_handle: 1 };
        assert(handles_view(r.entries@) =~= Seq::<HandleView>::empty());
        r
    }

    /// The number of consecutive failures.
    pub fn consecutive_failures(&self) -> (r: u32)
        ensures
            r == self@.failures,
    {
        self.failures
    }

    /// Whether the daemon is left alone at `now` (see [`spec_in_cooldown`]).
    pub fn in_cooldown(&self, now: u64) -> (r: bool)
        ensures
            r == spec_in_cooldown(self@, now),
    {
        match self.last_failure {
            Some(t) => {
                let elapsed = if now >= t { now - t } else { 0 };
                elapsed < current_cooldown(self.failures)
            },
            None => false,
        }
    }

    fn find(&self, h: u32) -> (r: Option<usize>)
        ensures
            match r {
                Some(i) => find_handle(self@.handles, h) == Some(i as int) && i < self.entries@.len(),
                None => find_handle(self@.handles, h) is None,
            },
    {
        let ghost hs = self@.handles;
        let mut i: usize = self.entries.len();
        assert(hs.take(i as int) =~= hs);
        while i > 0
            invariant
                i <= self.entries.len(),
                hs == handles_view(self.entries@),
                find_handle(hs, h) == find_handle(hs.take(i as int), h),
            decreases i,
        {
            assert(hs.take(i as int).drop_last() =~= hs.take(i - 1));
            if self.entries[i - 1].handle == h {
                return Some(i - 1);
            }
            i -= 1;
        }
        None
    }

    /// The daemon session of `h` (0 when it has none or is not registered).
    pub fn daemon_session_id(&self, h: u32) -> (r: SessionId)
        ensures
            r == match daemon_id_of(self@, h) {
                Some(id) => id,
                None => 0,
            },
    {
        match self.find(h) {
            Some(i) => self.entries[i].daemon_id,
            None => 0,
        }
    }

    /// Records a failed call at `now` (see [`failed`]).
    pub fn mark_failed(&mut self, now: u64)
        ensures
            final(self)@ == failed(old(self)@, now),
    {
        proof {
            use_type_invariant(&*self);
        }
        let ghost hs0 = self@.handles;
        let mut entries = Vec::new();
        std::mem::swap(&mut entries, &mut self.entries);
        let mut i: usize = 0;
        while i < entries.len()
            invariant
                i <= entries.len(),
                entries@.len() == hs0.len(),
                forall|k: int| 0 <= k < entries@.len() ==> (#[trigger] entries@[k]).daemon_id == (if k < i { 0 } else { hs0[k].daemon_id }),
                forall|k: int| 0 <= k < entries@.len() ==> (#[trigger] entries@[k])@.handle == hs0[k].handle && entries@[k]@.app_id == hs0[k].app_id,
            decreases entries.len() - i,
        {
            let ghost before = entries@;
            let e = &mut entries[i];
            e.daemon_id = 0;
            proof {
                assert(entries@ =~= before.update(i as int, entries@[i as int]));
            }
            i += 1;
        }
        proof {
            let nv = handles_view(entries@);
            assert forall|a: int, b: int| 0 <= a < b < nv.len() implies nv[a].handle != nv[b].handle by {
                assert(nv[a].handle == hs0[a].handle);
                assert(nv[b].handle == hs0[b].handle);
            }
        }
        self.entries = entries;
        self.failures = self.failures.saturating_add(1);
        self.last_failure = Some(now);
        assert(self@.handles =~= hs0.map_values(|e: HandleView| HandleView { daemon_id: 0, ..e }));
    }

    /// Records a successful call (see [`recovered`]).
    pub fn mark_recovered(&mut self)
        ensures
            final(self)@ == recovered(old(self)@),
    {
        proof {
            use_type_invariant(&*self);
        }
        self.failures = 0;
        self.last_failure = None;
    }

    fn set_daemon_id(&mut self, h: u32, id: SessionId)
        ensures
            final(self)@ == with_daemon_id(old(self)@, h, id),
    {
        proof {
            use_type_invariant(&*self);
        }
        match self.find(h) {
            Some(i) => {
                let ghost before = self@;
                let mut entries = Vec::new();
                std::mem::swap(&mut entries, &mut self.entries);
                entries[i].daemon_id = id;
                proof {
                    let nv = handles_view(entries@);
                    assert(nv =~= before.handles.update(i as int, HandleView { daemon_id: id, ..before.handles[i as int] }));
                    assert forall|a: int, b: int| 0 <= a < b < nv.len() implies nv[a].handle != nv[b].handle by {
                        assert(nv[a].handle == before.handles[a].handle);
                        assert(nv[b].handle == before.handles[b].handle);
                    }
                }
                self.entries = entries;
            },
            None => {},
        }
    }
}

impl ClientState {
    /// Registers a new handle for `app_id` (see [`after_create`]).  The
    /// caller asks the daemon for a session only when not in a cooldown
    /// (see [`ClientState::in_cooldown`]), and passes `None` otherwise.
    pub fn create_handle(&mut self, app_id: &str, created: Option<Result<SessionId, ()>>, now: u64) -> (h: u32)
        ensures
            h == old(self)@.next_handle,
            final(self)@ == after_create(old(self)@, app_id@, created, now),
    {
        proof {
            use_type_invariant(&*self);
        }
        let h = self.next_handle;
        let id: SessionId = match created {
            Some(Ok(id)) => id,
            Some(Err(())) => {
                self.mark_failed(now);
                0
            },
            None => 0,
        };
        proof {
            use_type_invariant(&*self);
        }
        let ghost v1 = self@;
        let entry = SessionEntry { handle: h, app_id: app_id.to_owned(), daemon_id: id };
        let mut entries = Vec::new();
        std::mem::swap(&mut entries, &mut self.entries);
        match find_in(&entries, h) {
            Some(i) => {
                entries.set(i, entry);
                proof {
                    lemma_find_some(v1.handles, h);
                    let nv = handles_view(entries@);
                    assert(nv =~= v1.handles.update(i as int, HandleView { handle: h, app_id: app_id@, daemon_id: id }));
                    assert forall|a: int, b: int| 0 <= a < b < nv.len() implies nv[a].handle != nv[b].handle by {
                        assert(nv[a].handle == v1.handles[a].handle);
                        assert(nv[b].handle == v1.handles[b].handle);
                    }
                }
            },
            None => {
                entries.push(entry);
                proof {
                    let nv = handles_view(entries@);
                    assert(nv =~= v1.handles.push(HandleView { handle: h, app_id: app_id@, daemon_id: id }));
                    lemma_find_none(v1.handles, h);
                    assert forall|a: int, b: int| 0 <= a < b < nv.len() implies nv[a].handle != nv[b].handle by {
                        if b < v1.handles.len() {
                            assert(nv[b].handle == v1.handles[b].handle);
                        }
                        assert(nv[a].handle == v1.handles[a].handle);
                    }
                }
            },
        }
        self.entries = entries;
        self.next_handle = if self.next_handle == u32::MAX { 0 } else { self.next_handle + 1 };
        h
    }

    /// Forgets handle `h`; the daemon session to destroy, if any (see
    /// [`session_to_destroy`]).
    pub fn destroy_handle(&mut self, h: u32, now: u64) -> (r: Option<SessionId>)
        ensures
            r == session_to_destroy(old(self)@, h, now),
            final(self)@ == (ClientView { handles: without_handle(old(self)@.handles, h), ..old(self)@ }),
    {
        proof {
            use_type_invariant(&*self);
        }
        let cool = self.in_cooldown(now);
        match self.find(h) {
            Some(i) => {
                let ghost before = self@;
                let mut entries = Vec::new();
                std::mem::swap(&mut entries, &mut self.entries);
                let e = entries.remove(i);
                proof {
                    let nv = handles_view(entries@);
                    assert(nv =~= before.handles.remove(i as int));
                    assert forall|a: int, b: int| 0 <= a < b < nv.len() implies nv[a].handle != nv[b].handle by {
                        let a0 = if a < i { a } else { a + 1 };
                        let b0 = if b < i { b } else { b + 1 };
                        assert(nv[a].handle == before.handles[a0].handle);
                        assert(nv[b].handle == before.handles[b0].handle);
                    }
                }
                self.entries = entries;
                if e.daemon_id != 0 && !cool {
                    Some(e.daemon_id)
                } else {
                    None
                }
            },
            None => None,
        }
    }

    /// How a key for handle `h` starts (see [`key_begin`]).
    pub fn key_start(&self, h: u32, now: u64) -> (r: (KeyStage, KeyStep))
        ensures
            (r.0, r.1@) == key_begin(self@, h, now),
    {
        if self.in_cooldown(now) {
            return (KeyStage::First, KeyStep::Done(Err(ProcessKeyError::Unavailable)));
        }
        match self.find(h) {
            None => (KeyStage::First, KeyStep::Done(Err(ProcessKeyError::UnknownHandle))),
            Some(i) => {
                let e = &self.entries[i];
                if e.daemon_id == 0 {
                    (KeyStage::Ensure, KeyStep::CreateSession(e.app_id.clone()))
                } else {
                    (KeyStage::First, KeyStep::ProcessKey(e.daemon_id))
                }
            },
        }
    }

    /// Resumes the key of handle `h` in `stage` with the daemon's reply to
    /// the step it asked for (see [`key_after`]).  A stale session is
    /// created again and the key resent once; any failed call makes the key
    /// unavailable and starts a cooldown.
    pub fn key_resume(&mut self, h: u32, stage: KeyStage, reply: Reply, now: u64) -> (r: (KeyStage, KeyStep))
        requires
            match reply {
                Reply::Created(_) => stage == KeyStage::Ensure || stage == KeyStage::Recreate,
                Reply::Actions(_) => stage == KeyStage::First || stage == KeyStage::Retry,
            },
        ensures
            (r.0, r.1@, final(self)@) == key_after(old(self)@, h, stage, reply, now),
    {
        match reply {
            Reply::Created(Ok(id)) => {
                self.set_daemon_id(h, id);
                let next = if stage == KeyStage::Ensure { KeyStage::First } else { KeyStage::Retry };
                (next, KeyStep::ProcessKey(id))
            },
            Reply::Created(Err(())) => {
                self.mark_failed(now);
                (stage, KeyStep::Done(Err(ProcessKeyError::Unavailable)))
            },
            Reply::Actions(Ok(acts)) => {
                if stage == KeyStage::First && has_session_invalid(&acts) {
                    match self.find(h) {
                        Some(i) => (KeyStage::Recreate, KeyStep::CreateSession(self.entries[i].app_id.clone())),
                        None => {
                            self.mark_failed(now);
                            (stage, KeyStep::Done(Err(ProcessKeyError::Unavailable)))
                        },
                    }
                } else {
                    self.mark_recovered();
                    (stage, KeyStep::Done(Ok(acts)))
                }
            },
            Reply::Actions(Err(())) => {
                self.mark_failed(now);
                (stage, KeyStep::Done(Err(ProcessKeyError::Unavailable)))
            },
        }
    }

    /// Whether the background monitor should probe the daemon: a failure
    /// was recorded and not yet cleared.
    pub fn probe_due(&self) -> (r: bool)
        ensures
            r == (self@.last_failure is Some),
    {
        self.last_failure.is_some()
    }

    /// How long the monitor waits before its next probe.
    pub fn probe_delay(&self) -> (r: u64)
        ensures
            r == spec_cooldown(self@.failures),
    {
        current_cooldown(self.failures)
    }

    /// Records the outcome of a background probe (see [`after_probe`]).
    pub fn probe_result(&mut self, ok: bool, now: u64)
        ensures
            final(self)@ == after_probe(old(self)@, ok, now),
    {
        proof {
            use_type_invariant(&*self);
        }
        if ok {
            self.mark_recovered();
        } else {
            self.failures = self.failures.saturating_add(1);
            self.last_failure = Some(now);
        }
    }
}

/// After a failed call at `failed_at`, keys are refused without calling
/// the daemon until the cooldown has passed; after it, a key for a
/// registered handle starts by creating its session again, since the
/// failure forgot every daemon session.
pub proof fn lemma_failure_gates_calls(v: ClientView, failed_at: u64, h: u32, now: u64)
    requires
        failed_at <= now,
    ensures
        now - failed_at < spec_cooldown(failed(v, failed_at).failures) ==> key_begin(failed(v, failed_at), h, now).1
            == KeyStepView::Done(Err(ProcessKeyError::Unavailable)),
        now - failed_at >= spec_cooldown(failed(v, failed_at).failures) && find_handle(v.handles, h) is Some
            ==> key_begin(failed(v, failed_at), h, now).0 == KeyStage::Ensure,
{
    let f = failed(v, failed_at);
    lemma_find_map(v.handles, h);
    lemma_find_some(f.handles, h);
    if let Some(i) = find_handle(f.handles, h) {
        assert(f.handles[i].daemon_id == 0);
    }
}

proof fn lemma_find_map(hs: Seq<HandleView>, h: u32)
    ensures
        find_handle(hs.map_values(|e: HandleView| HandleView { daemon_id: 0, ..e }), h) == find_handle(hs, h),
    decreases hs.len(),
{
    let m = hs.map_values(|e: HandleView| HandleView { daemon_id: 0, ..e });
    if hs.len() > 0 {
        lemma_find_map(hs.drop_last(), h);
        assert(m.drop_last() =~= hs.drop_last().map_values(|e: HandleView| HandleView { daemon_id: 0, ..e }));
    }
}

fn has_session_invalid(acts: &Vec<IpcAction>) -> (r: bool)
    ensures
        r == says_session_invalid(actions_view(acts@)),
{
    let mut i: usize = 0;
    while i < acts.len()
        invariant
            i <= acts.len(),
            forall|k: int| 0 <= k < i ==> acts@[k].kind != ACTION_SESSION_INVALID,
        decreases acts.len() - i,
    {
        if acts[i].kind == ACTION_SESSION_INVALID {
            assert(actions_view(acts@)[i as int].kind == ACTION_SESSION_INVALID);
            return true;
        }
        i += 1;
    }
    assert forall|k: int| 0 <= k < actions_view(acts@).len() implies actions_view(acts@)[k].kind != ACTION_SESSION_INVALID by {
        assert(actions_view(acts@)[k].kind == acts@[k].kind);
    }
    false
}

fn find_in(entries: &Vec<SessionEntry>, h: u32) -> (r: Option<usize>)
    ensures
        match r {
            Some(i) => find_handle(handles_view(entries@), h) == Some(i as int) && i < entries@.len(),
            None => find_handle(handles_view(entries@), h) is None,
        },
{
    let ghost hs = handles_view(entries@);
    let mut i: usize = entries.len();
    assert(hs.take(i as int) =~= hs);
    while i > 0
        invariant
            i <= entries.len(),
            hs == handles_view(entries@),
            find_handle(hs, h) == find_handle(hs.take(i as int), h),
        decreases i,
    {
        assert(hs.take(i as int).drop_last() =~= hs.take(i - 1));
        if entries[i - 1].handle == h {
            return Some(i - 1);
        }
        i -= 1;
    }
    None
}

proof fn lemma_find_some(hs: Seq<HandleView>, h: u32)
    ensures
        find_handle(hs, h) matches Some(i) ==> 0 <= i < hs.len() && hs[i].handle == h,
    decreases hs.len(),
{
    if hs.len() > 0 && hs.last().handle != h {
        lemma_find_some(hs.drop_last(), h);
        if let Some(i) = find_handle(hs, h) {
            assert(hs[i] == hs.drop_last()[i]);
        }
    }
}

proof fn lemma_find_none(hs: Seq<HandleView>, h: u32)
    requires
        find_handle(hs, h) is None,
    ensures
        forall|k: int| 0 <= k < hs.len() ==> hs[k].handle != h,
    decreases hs.len(),
{
    if hs.len() > 0 {
        lemma_find_none(hs.drop_last(), h);
        assert forall|k: int| 0 <= k < hs.len() implies hs[k].handle != h by {
            if k < hs.len() - 1 {
                assert(hs[k] == hs.drop_last()[k]);
            }
        }
    }
}

} // verus!
