//! The daemon's translation of engine output for the adapters.

use vstd::prelude::*;

use crate::engine::{actions_view, ActionView, EngineAction};
use crate::ipc::convert::ipc_of_action;
use crate::ipc::{plain_action, IpcAction, IpcActionView, ACTION_SESSION_INVALID, ACTION_UPDATE_STATUS};

verus! {

/// The wire form of a key's actions: status updates are dropped when the
/// indicator is disabled (`timeout_ms == 0`) and otherwise carry the
/// timeout in `cursor`; every other action is converted as is.
pub open spec fn wire_actions(acts: Seq<ActionView>, timeout_ms: u32) -> Seq<IpcActionView>
    decreases acts.len(),
{
    if acts.len() == 0 {
        Seq::empty()
    } else {
        wire_actions(acts.drop_last(), timeout_ms) + match acts.last() {
            ActionView::UpdateStatus(t) => if timeout_ms == 0 {
                Seq::empty()
            } else {
                seq![IpcActionView { cursor: timeout_ms, ..plain_action(ACTION_UPDATE_STATUS, t) }]
            },
            a => seq![ipc_of_action(a)],
        }
    }
}

pub open spec fn ipc_views(v: Seq<IpcAction>) -> Seq<IpcActionView> {
    v.map_values(|a: IpcAction| a@)
}

/// Converts the engine's actions for one key into what the adapters
/// receive, given the indicator timeout (0 when the indicator is disabled).
pub fn session_actions(actions: Vec<EngineAction>, timeout_ms: u32) -> (r: Vec<IpcAction>)
    ensures
        ipc_views(r@) == wire_actions(actions_view(actions@), timeout_ms),
{
    let ghost all = actions_view(actions@);
    let mut out: Vec<IpcAction> = Vec::new();
    let mut rest = actions;
    let ghost mut n: int = 0;
    assert(all.take(0) =~= Seq::<ActionView>::empty());
    while rest.len() > 0
        invariant
            0 <= n <= all.len(),
            actions_view(rest@) == all.skip(n),
            ipc_views(out@) == wire_actions(all.take(n), timeout_ms),
        decreases rest@.len(),
    {
        let ghost r0 = rest@;
        proof {
            assert(actions_view(r0).len() == r0.len());
            assert(all.skip(n).len() == all.len() - n);
            assert(n < all.len());
        }
        let a = rest.remove(0);
        proof {
            assert(rest@ =~= r0.subrange(1, r0.len() as int));
            assert(actions_view(r0)[0] == a@);
            assert(all.skip(n)[0] == all[n]);
            assert forall|k: int| 0 <= k < rest@.len() implies #[trigger] actions_view(rest@)[k] == all.skip(n + 1)[k] by {
                assert(actions_view(rest@)[k] == rest@[k]@);
                assert(rest@[k] == r0[k + 1]);
                assert(actions_view(r0)[k + 1] == all.skip(n)[k + 1]);
            }
            assert(actions_view(rest@) =~= all.skip(n + 1));
        }
        let ghost a_view = a@;
        let is_status = match &a {
            EngineAction::UpdateStatus(_) => true,
            _ => false,
        };
        if is_status {
            if timeout_ms != 0 {
                let mut w = IpcAction::from(a);
                w.cursor = timeout_ms;
                out.push(w);
            }
        } else {
            out.push(IpcAction::from(a));
        }
        proof {
            assert(all.take(n + 1).drop_last() =~= all.take(n));
            assert(all.take(n + 1).last() == a_view);
            assert(ipc_views(out@) =~= wire_actions(all.take(n + 1), timeout_ms));
            n = n + 1;
        }
    }
    proof {
        assert(all.take(n) =~= all);
    }
    out
}

/// The answer to a key for an unknown session.
pub fn session_invalid() -> (r: IpcAction)
    ensures
        r@ == plain_action(ACTION_SESSION_INVALID, Seq::empty()),
{
    let r = IpcAction {
        kind: ACTION_SESSION_INVALID,
        text: String::new(),
        cursor: 0,
        candidates: Vec::new(),
        focused: 0,
        ghost_start: crate::ipc::NO_GHOST,
    };
    assert(r@.candidates =~= Seq::<Seq<char>>::empty());
    r
}

} // verus!
