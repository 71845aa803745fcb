use vstd::prelude::*;

use crate::led_array::{encode_cells, Color, LedArray};
use crate::ws::{payload_bytes, WsPayload};
use crate::BroadcastMessage;

verus! {

/// How many changes a session holds back while its client waits for the
/// first snapshot; past that the snapshot supersedes them.
pub const PENDING_LIMIT: usize = 16;

/// What a sync session learns from its client, from the change bus, or from
/// its own sends.
#[derive(Clone, Copy, Debug, PartialEq, Eq, Structural)]
pub enum SessionEvent {
    /// The client sent a frame other than a close frame.
    ClientFrame,
    /// The client sent a close frame.
    ClientClose,
    /// Reading from the client failed.
    ClientError,
    /// The client's stream ended.
    ClientEnd,
    /// A change arrived from the bus.
    Broadcast(BroadcastMessage),
    /// The bus dropped changes this session had not read yet.
    Lagged,
    /// The bus shut down.
    BusClosed,
    /// Sending a frame to the client failed.
    SendFailed,
}

/// One thing a sync session does.
#[derive(Clone, Copy, Debug, PartialEq, Eq, Structural)]
pub enum SessionAction {
    /// Send the client its first full snapshot.
    SendSnapshot,
    /// Send the client one changed cell.
    SendUpdate { index: usize, color: Color },
    /// Send a full snapshot in place of missed changes, then resubscribe.
    Resync,
    /// End the session: both of its loops stop.
    Stop,
}

/// The decisions a sync session has taken so far.
pub struct SessionState {
    snapshot_sent: bool,
    stopped: bool,
    pending: Vec<BroadcastMessage>,
}

/// The model of a session's state.
pub struct SessionView {
    /// The client has been sent its first snapshot.
    pub snapshot_sent: bool,
    /// The session has ended.
    pub stopped: bool,
    /// Changes held back until the first snapshot is out, oldest first.
    pub pending: Seq<BroadcastMessage>,
}

impl View for SessionState {
    type V = SessionView;

    closed spec fn view(&self) -> SessionView {
        SessionView { snapshot_sent: self.snapshot_sent, stopped: self.stopped, pending: self.pending@ }
    }
}

/// The state of a session that was just opened.
pub open spec fn fresh() -> SessionView {
    SessionView { snapshot_sent: false, stopped: false, pending: Seq::empty() }
}

/// The action of forwarding a change.
pub open spec fn update_action(m: BroadcastMessage) -> SessionAction {
    match m {
        BroadcastMessage::LedUpdated { index, color } => SessionAction::SendUpdate { index, color },
    }
}

/// The actions that forward changes, in order.
pub open spec fn updates_of(ms: Seq<BroadcastMessage>) -> Seq<SessionAction> {
    ms.map_values(|m: BroadcastMessage| update_action(m))
}

/// The events that bring changes, in order.
pub open spec fn broadcasts(ms: Seq<BroadcastMessage>) -> Seq<SessionEvent> {
    ms.map_values(|m: BroadcastMessage| SessionEvent::Broadcast(m))
}

/// One step of a session: the next state and the actions for an event.
///
/// The first client frame brings the snapshot, followed by the changes
/// held back until then. Before it, changes are held back, up to
/// `PENDING_LIMIT` of them. When there are more, or when the bus reports
/// lost changes, everything held back is dropped: the snapshot, read later,
/// already holds those changes and the lost ones, and replaying an older
/// change after it could undo a lost newer one. After the snapshot, each
/// change is forwarded, and a lag brings a full snapshot. Any failure or
/// close ends the session for good.
pub open spec fn next(s: SessionView, e: SessionEvent) -> (SessionView, Seq<SessionAction>) {
    if s.stopped {
        (s, seq![SessionAction::Stop])
    } else {
        match e {
            SessionEvent::ClientFrame => if s.snapshot_sent {
                (s, Seq::empty())
            } else {
                (
                    SessionView { snapshot_sent: true, stopped: false, pending: Seq::empty() },
                    seq![SessionAction::SendSnapshot] + updates_of(s.pending),
                )
            },
            SessionEvent::Broadcast(m) => if s.snapshot_sent {
                (s, seq![update_action(m)])
            } else if s.pending.len() < PENDING_LIMIT {
                (SessionView { pending: s.pending.push(m), ..s }, Seq::empty())
            } else {
                (SessionView { pending: Seq::empty(), ..s }, Seq::empty())
            },
            SessionEvent::Lagged => if s.snapshot_sent {
                (s, seq![SessionAction::Resync])
            } else {
                (SessionView { pending: Seq::empty(), ..s }, Seq::empty())
            },
            _ => (SessionView { stopped: true, ..s }, seq![SessionAction::Stop]),
        }
    }
}

/// The state and the actions after a sequence of events.
pub open spec fn run(s: SessionView, evs: Seq<SessionEvent>) -> (SessionView, Seq<SessionAction>)
    decreases evs.len(),
{
    if evs.len() == 0 {
        (s, Seq::empty())
    } else {
        let (t, acts) = run(s, evs.drop_last());
        let (u, a) = next(t, evs.last());
        (u, acts + a)
    }
}

/// The frame an action puts on the wire, given the current canvas.
pub open spec fn action_frame(a: SessionAction, canvas: Seq<Color>) -> Option<Seq<u8>> {
    match a {
        SessionAction::SendSnapshot => Some(encode_cells(canvas)),
        SessionAction::Resync => Some(encode_cells(canvas)),
        SessionAction::SendUpdate { index, color } => Some(
            payload_bytes(WsPayload::SyncOne { index, color }),
        ),
        SessionAction::Stop => None,
    }
}

/// Running two sequences of events one after the other is running their
/// concatenation.
pub proof fn lemma_run_concat(s: SessionView, a: Seq<SessionEvent>, b: Seq<SessionEvent>)
    ensures
        run(s, a + b).0 == run(run(s, a).0, b).0,
        run(s, a + b).1 == run(s, a).1 + run(run(s, a).0, b).1,
    decreases b.len(),
{
    if b.len() == 0 {
        assert(a + b =~= a);
        assert(run(s, a).1 + Seq::<SessionAction>::empty() =~= run(s, a).1);
    } else {
        lemma_run_concat(s, a, b.drop_last());
        assert((a + b).drop_last() =~= a + b.drop_last());
        assert((a + b).last() == b.last());
        let x = run(s, a).1;
        let y = run(run(s, a).0, b.drop_last()).1;
        let z = next(run(run(s, a).0, b.drop_last()).0, b.last()).1;
        assert(x + y + z =~= x + (y + z));
    }
}

/// What one step can send: the first snapshot only from a session that has
/// not sent it, and then at the front; an update or a resync otherwise only
/// from a session that has sent it.
proof fn lemma_next_shape(t: SessionView, e: SessionEvent)
    ensures
        ({
            let (u, a) = next(t, e);
            &&& (!t.stopped && !t.snapshot_sent && e is ClientFrame) ==> (a[0] is SendSnapshot
                && forall|k: int| 0 < k < a.len() ==> #[trigger] a[k] is SendUpdate)
            &&& (!t.stopped && !t.snapshot_sent && e is ClientFrame) ==> a.len() > 0
                && u.snapshot_sent
            &&& !(!t.stopped && !t.snapshot_sent && e is ClientFrame) ==> (forall|k: int|
                0 <= k < a.len() ==> !(#[trigger] a[k] is SendSnapshot)) && u.snapshot_sent
                == t.snapshot_sent
            &&& !(!t.stopped && !t.snapshot_sent && e is ClientFrame) && !t.snapshot_sent ==> (
            forall|k: int| 0 <= k < a.len() ==> !(#[trigger] a[k] is SendUpdate || a[k] is Resync))
        }),
{
    let (u, a) = next(t, e);
    if !t.stopped && !t.snapshot_sent && e is ClientFrame {
        assert forall|k: int| 0 < k < a.len() implies #[trigger] a[k] is SendUpdate by {
            assert(a[k] == updates_of(t.pending)[k - 1]);
        }
    }
}

/// From a session that has not yet sent its first snapshot, every update
/// and every resync comes after that first snapshot, and the first snapshot
/// is sent at most once.
pub proof fn lemma_snapshot_first(s: SessionView, evs: Seq<SessionEvent>)
    requires
        !s.snapshot_sent,
    ensures
        ({
            let (t, acts) = run(s, evs);
            &&& t.snapshot_sent <==> exists|j: int|
                0 <= j < acts.len() && #[trigger] acts[j] is SendSnapshot
            &&& forall|i: int|
                0 <= i < acts.len() && (#[trigger] acts[i] is SendUpdate || acts[i] is Resync)
                    ==> exists|j: int| 0 <= j < i && #[trigger] acts[j] is SendSnapshot
            &&& forall|i: int, j: int|
                0 <= i < acts.len() && 0 <= j < acts.len() && #[trigger] acts[i] is SendSnapshot
                    && #[trigger] acts[j] is SendSnapshot ==> i == j
        }),
    decreases evs.len(),
{
    if evs.len() > 0 {
        let prev = evs.drop_last();
        let e = evs.last();
        lemma_snapshot_first(s, prev);
        let (t, acts) = run(s, prev);
        let (u, a) = next(t, e);
        lemma_next_shape(t, e);
        let all = acts + a;
        let n = acts.len() as int;
        assert(run(s, evs).1 == all);
        let opens = !t.stopped && !t.snapshot_sent && e is ClientFrame;
        assert forall|i: int|
            0 <= i < all.len() && (#[trigger] all[i] is SendUpdate || all[i] is Resync) implies exists|
            j: int,
        | 0 <= j < i && #[trigger] all[j] is SendSnapshot by {
            if i < n {
                assert(acts[i] == all[i]);
                let j = choose|j: int| 0 <= j < i && #[trigger] acts[j] is SendSnapshot;
                assert(all[j] == acts[j]);
            } else if opens {
                assert(all[n] == a[0]);
                assert(a[i - n] == all[i]);
                assert(i - n != 0);
            } else {
                assert(a[i - n] == all[i]);
                let j = choose|j: int| 0 <= j < n && #[trigger] acts[j] is SendSnapshot;
                assert(all[j] == acts[j]);
            }
        }
        assert forall|i: int, j: int|
            0 <= i < all.len() && 0 <= j < all.len() && #[trigger] all[i] is SendSnapshot
                && #[trigger] all[j] is SendSnapshot implies i == j by {
            if i < n {
                assert(acts[i] == all[i]);
            } else {
                assert(a[i - n] == all[i]);
            }
            if j < n {
                assert(acts[j] == all[j]);
            } else {
                assert(a[j - n] == all[j]);
            }
            if i < n && j >= n {
                assert(opens);
                assert(!(acts[i] is SendSnapshot));
            }
            if j < n && i >= n {
                assert(opens);
                assert(!(acts[j] is SendSnapshot));
            }
            if i >= n && j >= n && opens {
                assert(i - n == 0 || a[i - n] is SendUpdate);
                assert(j - n == 0 || a[j - n] is SendUpdate);
            }
        }
        if u.snapshot_sent {
            if t.snapshot_sent {
                let j = choose|j: int| 0 <= j < n && #[trigger] acts[j] is SendSnapshot;
                assert(all[j] == acts[j]);
            } else {
                assert(all[n] == a[0]);
                assert(all[n] is SendSnapshot);
            }
        } else {
            assert forall|j: int| 0 <= j < all.len() implies !(#[trigger] all[j] is SendSnapshot) by {
                if j < n {
                    assert(all[j] == acts[j]);
                } else {
                    assert(all[j] == a[j - n]);
                }
            }
        }
    }
}

/// Neither a client frame nor an event that ends the session.
pub open spec fn is_quiet(e: SessionEvent) -> bool {
    !(e is ClientFrame || e is ClientClose || e is ClientError || e is ClientEnd || e is BusClosed
        || e is SendFailed)
}

/// A session that was just opened sends its first snapshot at most once, on
/// the first client frame, and no update and no resync before it; the
/// snapshot is sent when a client frame comes before anything ends the
/// session.
pub proof fn lemma_one_initial_snapshot(evs: Seq<SessionEvent>)
    ensures
        ({
            let acts = run(fresh(), evs).1;
            &&& forall|i: int|
                0 <= i < acts.len() && (#[trigger] acts[i] is SendUpdate || acts[i] is Resync)
                    ==> exists|j: int| 0 <= j < i && #[trigger] acts[j] is SendSnapshot
            &&& forall|i: int, j: int|
                0 <= i < acts.len() && 0 <= j < acts.len() && #[trigger] acts[i] is SendSnapshot
                    && #[trigger] acts[j] is SendSnapshot ==> i == j
            &&& (exists|k: int|
                0 <= k < evs.len() && #[trigger] evs[k] is ClientFrame && forall|m: int|
                    0 <= m < k ==> is_quiet(#[trigger] evs[m])) ==> exists|j: int|
                0 <= j < acts.len() && #[trigger] acts[j] is SendSnapshot
        }),
{
    lemma_snapshot_first(fresh(), evs);
    let acts = run(fresh(), evs).1;
    if exists|k: int|
        0 <= k < evs.len() && #[trigger] evs[k] is ClientFrame && forall|m: int|
            0 <= m < k ==> is_quiet(#[trigger] evs[m]) {
        let k = choose|k: int|
            0 <= k < evs.len() && #[trigger] evs[k] is ClientFrame && forall|m: int|
                0 <= m < k ==> is_quiet(#[trigger] evs[m]);
        let pre = evs.take(k + 1);
        lemma_quiet_prefix(fresh(), evs.take(k));
        assert(pre.drop_last() =~= evs.take(k));
        assert(pre.last() == evs[k]);
        lemma_next_shape(run(fresh(), evs.take(k)).0, evs[k]);
        lemma_snapshot_first(fresh(), pre);
        lemma_run_concat(fresh(), pre, evs.skip(k + 1));
        assert(pre + evs.skip(k + 1) =~= evs);
        assert(run(fresh(), pre).0.snapshot_sent);
        let j = choose|j: int|
            0 <= j < run(fresh(), pre).1.len() && #[trigger] run(fresh(), pre).1[j] is SendSnapshot;
        assert(acts[j] == run(fresh(), pre).1[j]);
    }
}

/// Events that neither bring a client frame nor end the session keep a
/// session open and waiting for its first snapshot.
proof fn lemma_quiet_prefix(s: SessionView, evs: Seq<SessionEvent>)
    requires
        !s.snapshot_sent,
        !s.stopped,
        forall|m: int| 0 <= m < evs.len() ==> is_quiet(#[trigger] evs[m]),
    ensures
        !run(s, evs).0.snapshot_sent,
        !run(s, evs).0.stopped,
    decreases evs.len(),
{
    if evs.len() > 0 {
        lemma_quiet_prefix(s, evs.drop_last());
        assert(is_quiet(evs[evs.len() - 1]));
    }
}

/// Once the first snapshot is out, a run of changes with no lag is forwarded
/// as one update per change, in the order they were published.
pub proof fn lemma_updates_in_order(s: SessionView, msgs: Seq<BroadcastMessage>)
    requires
        s.snapshot_sent,
        !s.stopped,
    ensures
        run(s, broadcasts(msgs)).0 == s,
        run(s, broadcasts(msgs)).1 == updates_of(msgs),
    decreases msgs.len(),
{
    let evs = broadcasts(msgs);
    if msgs.len() > 0 {
        let prev = msgs.drop_last();
        lemma_updates_in_order(s, prev);
        assert(evs.drop_last() =~= broadcasts(prev));
        assert(updates_of(msgs) =~= updates_of(prev) + seq![update_action(msgs.last())]);
    } else {
        assert(evs =~= Seq::<SessionEvent>::empty());
        assert(updates_of(msgs) =~= Seq::<SessionAction>::empty());
    }
}

/// Changes that come before the first snapshot, within the limit, are held
/// back in order and nothing is sent.
proof fn lemma_held_back(s: SessionView, msgs: Seq<BroadcastMessage>)
    requires
        !s.snapshot_sent,
        !s.stopped,
        s.pending.len() + msgs.len() <= PENDING_LIMIT,
    ensures
        run(s, broadcasts(msgs)).0 == (SessionView { pending: s.pending + msgs, ..s }),
        run(s, broadcasts(msgs)).1 == Seq::<SessionAction>::empty(),
    decreases msgs.len(),
{
    let evs = broadcasts(msgs);
    if msgs.len() > 0 {
        let prev = msgs.drop_last();
        lemma_held_back(s, prev);
        assert(evs.drop_last() =~= broadcasts(prev));
        assert((s.pending + prev).push(msgs.last()) =~= s.pending + msgs);
        assert(Seq::<SessionAction>::empty() + Seq::<SessionAction>::empty() =~= Seq::<
            SessionAction,
        >::empty());
    } else {
        assert(evs =~= Seq::<SessionEvent>::empty());
        assert(s.pending + msgs =~= s.pending);
    }
}

/// Every change published to a session that was just opened reaches the
/// client as an update, in publish order: those that come before the
/// client's first frame (at most `PENDING_LIMIT`) right after the first
/// snapshot, and the later ones as they come.
pub proof fn lemma_every_change_forwarded(before: Seq<BroadcastMessage>, after: Seq<BroadcastMessage>)
    requires
        before.len() <= PENDING_LIMIT,
    ensures
        run(fresh(), broadcasts(before) + seq![SessionEvent::ClientFrame] + broadcasts(after)).1
            == seq![SessionAction::SendSnapshot] + updates_of(before + after),
{
    let first = broadcasts(before);
    let opening = first + seq![SessionEvent::ClientFrame];
    lemma_held_back(fresh(), before);
    assert(fresh().pending + before =~= before);
    assert(opening.drop_last() =~= first);
    let held = run(fresh(), first).0;
    let (t, a) = next(held, SessionEvent::ClientFrame);
    assert(run(fresh(), opening).1 =~= Seq::<SessionAction>::empty() + a);
    lemma_updates_in_order(t, after);
    lemma_run_concat(fresh(), opening, broadcasts(after));
    assert(updates_of(before + after) =~= updates_of(before) + updates_of(after));
    assert(seq![SessionAction::SendSnapshot] + updates_of(before) + updates_of(after) =~= seq![
        SessionAction::SendSnapshot,
    ] + updates_of(before + after));
    assert(Seq::<SessionAction>::empty() + a =~= a);
}

/// After the bus reports lost changes, the next frame the client gets is a
/// full snapshot: a resync at once, or, before the first snapshot, that
/// first snapshot ahead of any update, with every change held back from
/// before the lag dropped.
pub proof fn lemma_lag_resyncs(s: SessionView, evs: Seq<SessionEvent>)
    requires
        !s.stopped,
    ensures
        ({
            let (t, a) = next(s, SessionEvent::Lagged);
            let acts = run(t, evs).1;
            a == seq![SessionAction::Resync] || (a.len() == 0 && t.pending.len() == 0 && forall|
                i: int,
            | 0 <= i < acts.len() && #[trigger] acts[i] is SendUpdate ==> exists|j: int|
                0 <= j < i && #[trigger] acts[j] is SendSnapshot)
        }),
{
    if !s.snapshot_sent {
        lemma_snapshot_first(next(s, SessionEvent::Lagged).0, evs);
    }
}

/// A stopped session stays stopped and answers every event with stop.
proof fn lemma_stopped_stays(s: SessionView, evs: Seq<SessionEvent>)
    requires
        s.stopped,
    ensures
        run(s, evs).0 == s,
        run(s, evs).1 == Seq::new(evs.len(), |i: int| SessionAction::Stop),
    decreases evs.len(),
{
    if evs.len() > 0 {
        lemma_stopped_stays(s, evs.drop_last());
        assert(run(s, evs).1 =~= Seq::new(evs.len(), |i: int| SessionAction::Stop));
    } else {
        assert(run(s, evs).1 =~= Seq::new(evs.len(), |i: int| SessionAction::Stop));
    }
}

/// Closing the client's transport ends the session, and every later event,
/// from either loop, is answered with stop and nothing else.
pub proof fn lemma_close_stops_both(s: SessionView, e: SessionEvent, evs: Seq<SessionEvent>)
    requires
        e is ClientClose || e is ClientError || e is ClientEnd,
    ensures
        next(s, e).1 == seq![SessionAction::Stop],
        next(s, e).0.stopped,
        run(next(s, e).0, evs).1 == Seq::new(evs.len(), |i: int| SessionAction::Stop),
{
    lemma_stopped_stays(next(s, e).0, evs);
}

impl SessionState {
    /// A session that was just opened.
    pub fn new() -> (r: SessionState)
        ensures
            r@ == fresh(),
    {
        SessionState { snapshot_sent: false, stopped: false, pending: Vec::new() }
    }

    /// Takes one event and says what to do, in order.
    pub fn step(&mut self, e: SessionEvent) -> (r: Vec<SessionAction>)
        ensures
            (final(self)@, r@) == next(old(self)@, e),
    {
        let mut out: Vec<SessionAction> = Vec::new();
        if self.stopped {
            out.push(SessionAction::Stop);
            return out;
        }
        match e {
            SessionEvent::ClientFrame => if !self.snapshot_sent {
                out.push(SessionAction::SendSnapshot);
                let mut i: usize = 0;
                while i < self.pending.len()
                    invariant
                        i <= self.pending@.len(),
                        out@ == seq![SessionAction::SendSnapshot] + updates_of(
                            self.pending@.subrange(0, i as int),
                        ),
                    decreases self.pending@.len() - i,
                {
                    let m = self.pending[i];
                    match m {
                        BroadcastMessage::LedUpdated { index, color } => {
                            out.push(SessionAction::SendUpdate { index, color });
                        },
                    }
                    i = i + 1;
                    assert(out@ =~= seq![SessionAction::SendSnapshot] + updates_of(
                        self.pending@.subrange(0, i as int),
                    ));
                }
                assert(self.pending@.subrange(0, i as int) =~= self.pending@);
                self.snapshot_sent = true;
                self.pending = Vec::new();
            },
            SessionEvent::Broadcast(m) => if self.snapshot_sent {
                match m {
                    BroadcastMessage::LedUpdated { index, color } => {
                        out.push(SessionAction::SendUpdate { index, color });
                    },
                }
            } else if self.pending.len() < PENDING_LIMIT {
                self.pending.push(m);
            } else {
                self.pending = Vec::new();
            },
            SessionEvent::Lagged => if self.snapshot_sent {
                out.push(SessionAction::Resync);
            } else {
                self.pending = Vec::new();
            },
            _ => {
                self.stopped = true;
                out.push(SessionAction::Stop);
            },
        }
        proof {
            assert(out@ =~= next(old(self)@, e).1);
            assert(self@ =~= next(old(self)@, e).0);
        }
        out
    }
}

impl SessionAction {
    /// The action sends a full snapshot of the canvas.
    pub fn is_snapshot(self) -> (r: bool)
        ensures
            r <==> (self is SendSnapshot || self is Resync),
    {
        match self {
            SessionAction::SendSnapshot => true,
            SessionAction::Resync => true,
            _ => false,
        }
    }

    /// The payload this action sends, if any; a snapshot holds `canvas`.
    pub fn payload(self, canvas: &LedArray) -> (r: Option<WsPayload>)
        ensures
            match r {
                Some(p) => action_frame(self, canvas@) == Some(payload_bytes(p)),
                None => action_frame(self, canvas@) is None,
            },
    {
        match self {
            SessionAction::SendSnapshot => Some(WsPayload::SyncAll(Box::new(canvas.duplicate()))),
            SessionAction::Resync => Some(WsPayload::SyncAll(Box::new(canvas.duplicate()))),
            SessionAction::SendUpdate { index, color } => Some(WsPayload::SyncOne { index, color }),
            SessionAction::Stop => None,
        }
    }

    /// The frame of an update, which needs no canvas; `None` for any other
    /// action.
    pub fn update_frame(self) -> (r: Option<Vec<u8>>)
        ensures
            self is SendUpdate ==> (r matches Some(v) && action_frame(self, Seq::empty()) == Some(v@)),
            !(self is SendUpdate) ==> r is None,
    {
        match self {
            SessionAction::SendUpdate { index, color } => Some(
                WsPayload::SyncOne { index, color }.into_bytes(),
            ),
            _ => None,
        }
    }

    /// The frame this action sends, if any; a snapshot holds `canvas`.
    pub fn frame(self, canvas: &LedArray) -> (r: Option<Vec<u8>>)
        ensures
            match r {
                Some(v) => action_frame(self, canvas@) == Some(v@),
                None => action_frame(self, canvas@) is None,
            },
    {
        match self.payload(canvas) {
            Some(p) => Some(p.into_bytes()),
            None => None,
        }
    }
}

} // verus!
