use vstd::prelude::*;

use crate::session::{fresh, next, updates_of, SessionAction, SessionEvent, SessionView, PENDING_LIMIT};
use crate::led_array::Color;
use crate::BroadcastMessage;

verus! {

/// `cells` with one change applied; a change past the end changes nothing.
pub open spec fn apply_change(cells: Seq<Color>, m: BroadcastMessage) -> Seq<Color> {
    match m {
        BroadcastMessage::LedUpdated { index, color } => if index < cells.len() {
            cells.update(index as int, color)
        } else {
            cells
        },
    }
}

/// `cells` with a sequence of changes applied in order.
pub open spec fn replay(cells: Seq<Color>, ms: Seq<BroadcastMessage>) -> Seq<Color>
    decreases ms.len(),
{
    if ms.len() == 0 {
        cells
    } else {
        apply_change(replay(cells, ms.drop_last()), ms.last())
    }
}

/// What the client shows after it gets the frames of `acts`, where a
/// snapshot shows `store`, the canvas at the time it is sent.
pub open spec fn client_after(client: Seq<Color>, acts: Seq<SessionAction>, store: Seq<Color>) -> Seq<
    Color,
>
    decreases acts.len(),
{
    if acts.len() == 0 {
        client
    } else {
        let before = client_after(client, acts.drop_last(), store);
        match acts.last() {
            SessionAction::SendSnapshot => store,
            SessionAction::Resync => store,
            SessionAction::SendUpdate { index, color } => apply_change(
                before,
                BroadcastMessage::LedUpdated { index, color },
            ),
            SessionAction::Stop => before,
        }
    }
}

/// What happens around one session: a write whose change reaches it, a
/// write whose change the bus loses, or another session event.
pub enum WorldEvent {
    /// A write is stored and its change reaches the session.
    Write(BroadcastMessage),
    /// A write is stored and the bus drops its change for this session.
    LostWrite(BroadcastMessage),
    /// Any session event that is not a change from the bus.
    Other(SessionEvent),
}

/// The session, the stored canvas, the client's view, and whether a change
/// was lost that no lag report has covered yet.
pub struct World {
    pub session: SessionView,
    pub store: Seq<Color>,
    pub client: Seq<Color>,
    pub lost: bool,
}

/// One step of the world.
pub open spec fn world_next(w: World, e: WorldEvent) -> World {
    match e {
        WorldEvent::Write(m) => {
            let store = apply_change(w.store, m);
            let (s, acts) = next(w.session, SessionEvent::Broadcast(m));
            World { session: s, store, client: client_after(w.client, acts, store), lost: w.lost }
        },
        WorldEvent::LostWrite(m) => World {
            store: apply_change(w.store, m),
            lost: true,
            ..w
        },
        WorldEvent::Other(ev) => {
            let (s, acts) = next(w.session, ev);
            World {
                session: s,
                store: w.store,
                client: client_after(w.client, acts, w.store),
                lost: w.lost && !(ev is Lagged && !w.session.stopped),
            }
        },
    }
}

/// The world after a sequence of events.
pub open spec fn world_run(w: World, evs: Seq<WorldEvent>) -> World
    decreases evs.len(),
{
    if evs.len() == 0 {
        w
    } else {
        world_next(world_run(w, evs.drop_last()), evs.last())
    }
}

/// The client agrees with the store as far as the session can know: once
/// the first snapshot is out the client shows the store, and before it the
/// held-back changes, replayed on the store, leave it as it is. Nothing is
/// claimed while a lost change is not yet covered by a lag report.
pub open spec fn in_step(w: World) -> bool {
    !w.lost && !w.session.stopped ==> (if w.session.snapshot_sent {
        w.client == w.store
    } else {
        replay(w.store, w.session.pending) == w.store
    })
}

/// Replaying changes on two canvases of one length that agree at a cell
/// gives canvases that still agree there.
proof fn lemma_replay_pointwise(x: Seq<Color>, y: Seq<Color>, ms: Seq<BroadcastMessage>, j: int)
    requires
        x.len() == y.len(),
        0 <= j < x.len(),
        x[j] == y[j],
    ensures
        replay(x, ms).len() == x.len(),
        replay(y, ms).len() == y.len(),
        replay(x, ms)[j] == replay(y, ms)[j],
    decreases ms.len(),
{
    if ms.len() > 0 {
        lemma_replay_pointwise(x, y, ms.drop_last(), j);
    }
}

/// Replaying a change on a canvas keeps its length.
proof fn lemma_replay_len(x: Seq<Color>, ms: Seq<BroadcastMessage>)
    ensures
        replay(x, ms).len() == x.len(),
    decreases ms.len(),
{
    if ms.len() > 0 {
        lemma_replay_len(x, ms.drop_last());
    }
}

/// Held-back changes that leave the store as it is still do after one more
/// change is both stored and held back.
proof fn lemma_held_back_agrees(x: Seq<Color>, p: Seq<BroadcastMessage>, m: BroadcastMessage)
    requires
        replay(x, p) == x,
    ensures
        replay(apply_change(x, m), p.push(m)) == apply_change(x, m),
{
    let y = apply_change(x, m);
    assert(p.push(m).drop_last() =~= p);
    lemma_replay_len(y, p);
    let r = replay(y, p);
    assert forall|j: int| 0 <= j < y.len() implies apply_change(r, m)[j] == y[j] by {
        match m {
            BroadcastMessage::LedUpdated { index, color } => {
                if !(index < x.len() && j == index) {
                    assert(y[j] == x[j]);
                    lemma_replay_pointwise(x, y, p, j);
                }
            },
        }
    }
    assert(apply_change(r, m) =~= y);
}

/// The client's view after the first snapshot and the held-back changes is
/// the store with those changes replayed.
proof fn lemma_snapshot_then_replay(client: Seq<Color>, p: Seq<BroadcastMessage>, store: Seq<Color>)
    ensures
        client_after(client, seq![SessionAction::SendSnapshot] + updates_of(p), store) == replay(
            store,
            p,
        ),
    decreases p.len(),
{
    let acts = seq![SessionAction::SendSnapshot] + updates_of(p);
    if p.len() == 0 {
        assert(acts =~= seq![SessionAction::SendSnapshot]);
        assert(acts.drop_last() =~= Seq::<SessionAction>::empty());
    } else {
        lemma_snapshot_then_replay(client, p.drop_last(), store);
        assert(acts.drop_last() =~= seq![SessionAction::SendSnapshot] + updates_of(p.drop_last()));
        assert(acts.last() == updates_of(p)[p.len() - 1]);
    }
}

/// One step keeps the client in step with the store.
proof fn lemma_world_step(w: World, e: WorldEvent)
    requires
        in_step(w),
        !(e matches WorldEvent::Other(SessionEvent::Broadcast(_))),
    ensures
        in_step(world_next(w, e)),
{
    reveal_with_fuel(client_after, 2);
    reveal_with_fuel(replay, 1);
    let u = world_next(w, e);
    if !u.lost && !u.session.stopped {
        match e {
            WorldEvent::Write(m) => {
                if !w.session.snapshot_sent && w.session.pending.len() < PENDING_LIMIT {
                    lemma_held_back_agrees(w.store, w.session.pending, m);
                }
            },
            WorldEvent::LostWrite(m) => {},
            WorldEvent::Other(ev) => {
                if ev is ClientFrame && !w.session.snapshot_sent {
                    lemma_snapshot_then_replay(w.client, w.session.pending, w.store);
                }
            },
        }
    }
}

/// Any run of events keeps the client in step with the store.
proof fn lemma_world_in_step(w: World, evs: Seq<WorldEvent>)
    requires
        in_step(w),
        forall|k: int|
            0 <= k < evs.len() ==> !(#[trigger] evs[k] matches WorldEvent::Other(
                SessionEvent::Broadcast(_),
            )),
    ensures
        in_step(world_run(w, evs)),
    decreases evs.len(),
{
    if evs.len() > 0 {
        lemma_world_in_step(w, evs.drop_last());
        assert(evs.last() == evs[evs.len() - 1]);
        lemma_world_step(world_run(w, evs.drop_last()), evs.last());
    }
}

/// A client converges to the stored canvas. Start a session on any canvas
/// and let any writes happen, their changes delivered or lost, along with
/// lag reports, client frames and the rest. Whenever the session is open,
/// has sent its first snapshot, and every lost change has been followed by a
/// lag report, the client shows exactly the stored canvas.
pub proof fn lemma_client_converges(store: Seq<Color>, client: Seq<Color>, evs: Seq<WorldEvent>)
    requires
        forall|k: int|
            0 <= k < evs.len() ==> !(#[trigger] evs[k] matches WorldEvent::Other(
                SessionEvent::Broadcast(_),
            )),
    ensures
        ({
            let w = world_run(World { session: fresh(), store, client, lost: false }, evs);
            w.session.snapshot_sent && !w.session.stopped && !w.lost ==> w.client == w.store
        }),
{
    lemma_world_in_step(World { session: fresh(), store, client, lost: false }, evs);
}

} // verus!
