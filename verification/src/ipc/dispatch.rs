//! Delivery of a batch of actions to a platform adapter.

use vstd::prelude::*;

use crate::ipc::{
    IpcAction, IpcActionView, ACTION_CLEAR_PREEDIT, ACTION_COMMIT, ACTION_HIDE_CANDIDATES, ACTION_PASSTHROUGH,
    ACTION_SHOW_CANDIDATES, ACTION_UPDATE_PREEDIT, ACTION_UPDATE_STATUS, NO_GHOST,
};

verus! {

/// One call made on an [`ActionSink`], with its arguments.
pub enum SinkCall {
    Commit(Seq<char>),
    UpdatePreedit(Seq<char>, u32, Option<u32>),
    ClearPreedit,
    ShowCandidates(Seq<Seq<char>>, u32, Seq<char>),
    HideCandidates,
    UpdateStatus(Seq<char>, u32),
}

/// Receiver of IME actions produced by dispatching a list of [`IpcAction`]s.
///
/// Each platform adapter implements this trait to translate engine output into
/// protocol-specific operations (XIM commit, GTK preedit signal, etc.).
/// `calls` is the record of the calls made on the sink, oldest first; each
/// method appends its own call to it.  A verified implementation defines
/// `calls` over its own state; the default, which records nothing, is for
/// implementations written outside verified code.
pub trait ActionSink {
    closed spec fn calls(&self) -> Seq<SinkCall> {
        Seq::empty()
    }

    fn commit(&mut self, text: &str)
        ensures
            final(self).calls() == old(self).calls().push(SinkCall::Commit(text@)),
    ;

    /// `ghost_start`: `None` = no ghost preview, `Some(byte_offset)` = ghost begins here.
    fn update_preedit(&mut self, text: &str, cursor: u32, ghost_start: Option<u32>)
        ensures
            final(self).calls() == old(self).calls().push(SinkCall::UpdatePreedit(text@, cursor, ghost_start)),
    ;

    fn clear_preedit(&mut self)
        ensures
            final(self).calls() == old(self).calls().push(SinkCall::ClearPreedit),
    ;

    fn show_candidates(&mut self, candidates: &[String], focused: u32, sel_keys: &str)
        ensures
            final(self).calls() == old(self).calls().push(
                SinkCall::ShowCandidates(crate::dict::entry::strs_view(candidates@), focused, sel_keys@),
            ),
    ;

    fn hide_candidates(&mut self)
        ensures
            final(self).calls() == old(self).calls().push(SinkCall::HideCandidates),
    ;

    /// `timeout_ms`: hint for how long to show the status indicator (0 = persistent).
    fn update_status(&mut self, indicator: &str, timeout_ms: u32)
        ensures
            final(self).calls() == old(self).calls().push(SinkCall::UpdateStatus(indicator@, timeout_ms)),
    ;
}

/// The sink call an action becomes, if any: passthrough and unknown kinds
/// make none.
pub open spec fn call_of(a: IpcActionView) -> Seq<SinkCall> {
    if a.kind == ACTION_COMMIT {
        seq![SinkCall::Commit(a.text)]
    } else if a.kind == ACTION_UPDATE_PREEDIT {
        seq![SinkCall::UpdatePreedit(a.text, a.cursor, if a.ghost_start != NO_GHOST { Some(a.ghost_start) } else { None })]
    } else if a.kind == ACTION_CLEAR_PREEDIT {
        seq![SinkCall::ClearPreedit]
    } else if a.kind == ACTION_SHOW_CANDIDATES {
        seq![SinkCall::ShowCandidates(a.candidates, a.focused, a.text)]
    } else if a.kind == ACTION_HIDE_CANDIDATES {
        seq![SinkCall::HideCandidates]
    } else if a.kind == ACTION_UPDATE_STATUS {
        seq![SinkCall::UpdateStatus(a.text, a.cursor)]
    } else {
        Seq::empty()
    }
}

/// The sink calls a list of actions becomes, in order.
pub open spec fn calls_of(actions: Seq<IpcActionView>) -> Seq<SinkCall>
    decreases actions.len(),
{
    if actions.len() == 0 {
        Seq::empty()
    } else {
        calls_of(actions.drop_last()) + call_of(actions.last())
    }
}

/// Outcome of dispatching a batch of `IpcAction`s.
pub struct DispatchResult {
    /// True if any action consumed the key (i.e. the adapter should not pass it through).
    pub consumed: bool,
    /// True if `ACTION_PASSTHROUGH` was present, forcing the key through even when consumed.
    pub force_passthrough: bool,
}

/// Whether an action of this kind consumes the key.
pub open spec fn consumes(kind: u8) -> bool {
    ACTION_COMMIT <= kind <= ACTION_UPDATE_STATUS
}

/// Dispatches the actions through `sink`, in order, and reports whether the
/// key was consumed and whether a passthrough was requested.
///
/// `ACTION_PASSTHROUGH` sets `force_passthrough`; every other known action
/// (commit, preedit, candidates, status) is handed to the sink and sets
/// `consumed`; unknown kinds are ignored.  The caller forwards the key when
/// `!consumed || force_passthrough`.
pub fn dispatch<S: ActionSink>(actions: &[IpcAction], sink: &mut S) -> (r: DispatchResult)
    ensures
        r.consumed == exists|i: int| 0 <= i < actions@.len() && consumes(#[trigger] actions@[i].kind),
        r.force_passthrough == exists|i: int| 0 <= i < actions@.len() && #[trigger] actions@[i].kind == ACTION_PASSTHROUGH,
        final(sink).calls() == old(sink).calls() + calls_of(crate::ipc::client::actions_view(actions@)),
{
    let ghost c0 = sink.calls();
    let ghost av = crate::ipc::client::actions_view(actions@);
    let mut consumed = false;
    let mut force_passthrough = false;
    let mut i: usize = 0;
    while i < actions.len()
        invariant
            i <= actions.len(),
            consumed == exists|j: int| 0 <= j < i && consumes(#[trigger] actions@[j].kind),
            force_passthrough == exists|j: int| 0 <= j < i && #[trigger] actions@[j].kind == ACTION_PASSTHROUGH,
            av == crate::ipc::client::actions_view(actions@),
            sink.calls() == c0 + calls_of(av.take(i as int)),
        decreases actions.len() - i,
    {
        proof {
            assert(av.take(i + 1).drop_last() =~= av.take(i as int));
            assert(av.take(i + 1).last() == actions@[i as int]@);
        }
        let action = &actions[i];
        let k = action.kind;
        if k == ACTION_PASSTHROUGH {
            force_passthrough = true;
        } else if k == ACTION_COMMIT {
            consumed = true;
            sink.commit(action.text.as_str());
        } else if k == ACTION_UPDATE_PREEDIT {
            consumed = true;
            let ghost_at = if action.ghost_start != NO_GHOST { Some(action.ghost_start) } else { None };
            sink.update_preedit(action.text.as_str(), action.cursor, ghost_at);
        } else if k == ACTION_CLEAR_PREEDIT {
            consumed = true;
            sink.clear_preedit();
        } else if k == ACTION_SHOW_CANDIDATES {
            consumed = true;
            sink.show_candidates(action.candidates.as_slice(), action.focused, action.text.as_str());
        } else if k == ACTION_HIDE_CANDIDATES {
            consumed = true;
            sink.hide_candidates();
        } else if k == ACTION_UPDATE_STATUS {
            consumed = true;
            sink.update_status(action.text.as_str(), action.cursor);
        }
        proof {
            assert(actions@[i as int].kind == k);
            assert(c0 + calls_of(av.take(i as int)) + call_of(actions@[i as int]@) =~= c0 + calls_of(av.take(i + 1)));
        }
        i += 1;
    }
    assert(av.take(actions@.len() as int) =~= av);
    DispatchResult { consumed, force_passthrough }
}

} // verus!
