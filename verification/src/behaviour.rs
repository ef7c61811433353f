//! The registry of peers and waiting files, and the decision of what to do next.
//!
//! Both queues are first in, first out: the outcomes of transfers are delivered in
//! the order in which they arrived, and files are sent in the order in which they
//! were requested. A send goes to the connected peer that has been connected
//! longest; a dial goes to the known peer that has been known longest among those
//! not connected.
//!
//! The registry keeps no record of the sends that are under way. Files that wait
//! while one peer stays first among the connected all go to that peer, one dispatch
//! cycle after the other; that they travel one at a time is left to the connection,
//! which opens at most `MAX_OPEN_SENDS` streams for sending at once.

use crate::peers::{lemma_with_peer, lemma_without, with_peer, without, PeerId, PeerSet};
use crate::protocol::{
    EventView, FileToSend, FileView, PayloadView, ProtocolEvent, TransferPayload,
};
use vstd::prelude::*;

verus! {

/// Milliseconds to wait before a dial is carried out, so that dials do not storm.
pub const DIAL_DELAY_MILLIS: u64 = 100;

/// How many streams one connection may have open for sending at the same time:
/// the next file to a peer starts when the stream of the one before is closed.
pub const MAX_OPEN_SENDS: u32 = 1;

/// The one thing a dispatch cycle asks for.
#[derive(Clone, Debug, PartialEq, Eq)]
pub enum DispatchAction {
    /// Hand this outcome of a transfer to the application.
    Deliver(ProtocolEvent),
    /// Open a stream to `peer` and send the file that `payload` describes.
    Send { peer: PeerId, payload: TransferPayload },
    /// Try to connect to `peer`.
    Dial { peer: PeerId },
    /// Nothing to do until something changes.
    Idle,
}

/// An action as plain values.
pub enum ActionView {
    Deliver(EventView),
    Send { peer: Seq<u8>, payload: PayloadView },
    Dial { peer: Seq<u8> },
    Idle,
}

impl View for DispatchAction {
    type V = ActionView;

    open spec fn view(&self) -> ActionView {
        match *self {
            DispatchAction::Deliver(event) => ActionView::Deliver(event@),
            DispatchAction::Send { peer, payload } => ActionView::Send {
                peer: peer@,
                payload: payload@,
            },
            DispatchAction::Dial { peer } => ActionView::Dial { peer: peer@ },
            DispatchAction::Idle => ActionView::Idle,
        }
    }
}

/// The registry as plain values: known and connected peers, oldest first, the
/// outcomes of transfers not yet delivered and the files not yet sent, oldest first.
pub struct Registry {
    pub known: Seq<Seq<u8>>,
    pub connected: Seq<Seq<u8>>,
    pub events: Seq<EventView>,
    pub pending: Seq<FileView>,
}

/// What can happen to a registry.
pub enum Op {
    /// Discovery has found the peer.
    Appeared(Seq<u8>),
    /// Discovery has lost the peer.
    Vanished(Seq<u8>),
    /// A connection to the peer is open.
    Connected(Seq<u8>),
    /// The connection to the peer is closed.
    Disconnected(Seq<u8>),
    /// A dial of the peer has failed.
    DialFailed(Seq<u8>),
    /// The operator asks for a file to be sent.
    Enqueue(FileView),
    /// A stream has ended its transfer, with this outcome.
    Completed(EventView),
    /// One dispatch cycle.
    Poll,
}

impl Registry {
    /// No peer is listed twice.
    pub open spec fn wf(self) -> bool {
        self.known.no_duplicates() && self.connected.no_duplicates()
    }

    pub open spec fn empty() -> Registry {
        Registry {
            known: Seq::empty(),
            connected: Seq::empty(),
            events: Seq::empty(),
            pending: Seq::empty(),
        }
    }

    pub open spec fn appeared(self, id: Seq<u8>) -> Registry {
        Registry { known: with_peer(self.known, id), ..self }
    }

    pub open spec fn vanished(self, id: Seq<u8>) -> Registry {
        Registry {
            known: without(self.known, id),
            connected: without(self.connected, id),
            ..self
        }
    }

    pub open spec fn connected_to(self, id: Seq<u8>) -> Registry {
        Registry { connected: with_peer(self.connected, id), ..self }
    }

    /// A closed connection ends the peer's being connected. The peer stays known
    /// until discovery loses it, and is dialled again meanwhile.
    pub open spec fn disconnected(self, id: Seq<u8>) -> Registry {
        Registry { connected: without(self.connected, id), ..self }
    }

    /// A failed dial leaves the peer known, to be dialled again.
    pub open spec fn dial_failed(self, id: Seq<u8>) -> Registry {
        Registry { connected: without(self.connected, id), ..self }
    }

    pub open spec fn enqueued(self, file: FileView) -> Registry {
        Registry { pending: self.pending.push(file), ..self }
    }

    /// The outcome of a transfer, whichever it is, waits to be delivered.
    pub open spec fn completed(self, event: EventView) -> Registry {
        Registry { events: self.events.push(event), ..self }
    }

    /// The known peer that has been known longest among those at position `from`
    /// or later that are not connected.
    pub open spec fn dial_target(self, from: int) -> Option<Seq<u8>>
        decreases self.known.len() - from,
    {
        if from < 0 || from >= self.known.len() {
            None
        } else if !self.connected.contains(self.known[from]) {
            Some(self.known[from])
        } else {
            self.dial_target(from + 1)
        }
    }

    /// What a dispatch cycle does, in strict priority: deliver the oldest outcome of
    /// a transfer; else send the oldest waiting file to the first connected peer; else
    /// dial the first known peer that is not connected; else nothing.
    ///
    /// Cycles that follow each other send to the same peer as long as it stays the
    /// first connected one: whether an earlier send to it is still under way plays
    /// no part in the decision.
    pub open spec fn decide(self) -> ActionView {
        if self.events.len() > 0 {
            ActionView::Deliver(self.events[0])
        } else if self.connected.len() > 0 && self.pending.len() > 0 {
            ActionView::Send {
                peer: self.connected[0],
                payload: PayloadView {
                    name: self.pending[0].name,
                    path: self.pending[0].path,
                    hash: Seq::empty(),
                    size_bytes: 0,
                },
            }
        } else {
            match self.dial_target(0) {
                Some(peer) => ActionView::Dial { peer },
                None => ActionView::Idle,
            }
        }
    }

    /// The registry after a dispatch cycle: what was delivered or sent has left its queue.
    pub open spec fn after_decision(self) -> Registry {
        if self.events.len() > 0 {
            Registry { events: self.events.drop_first(), ..self }
        } else if self.connected.len() > 0 && self.pending.len() > 0 {
            Registry { pending: self.pending.drop_first(), ..self }
        } else {
            self
        }
    }

    /// The registry after `op`.
    pub open spec fn step(self, op: Op) -> Registry {
        match op {
            Op::Appeared(id) => self.appeared(id),
            Op::Vanished(id) => self.vanished(id),
            Op::Connected(id) => self.connected_to(id),
            Op::Disconnected(id) => self.disconnected(id),
            Op::DialFailed(id) => self.dial_failed(id),
            Op::Enqueue(file) => self.enqueued(file),
            Op::Completed(event) => self.completed(event),
            Op::Poll => self.after_decision(),
        }
    }

    /// The registry after all of `ops`, in order.
    pub open spec fn run(self, ops: Seq<Op>) -> Registry
        decreases ops.len(),
    {
        if ops.len() == 0 {
            self
        } else {
            self.run(ops.drop_last()).step(ops.last())
        }
    }
}

/// Whether `op` is a notice from discovery.
pub open spec fn is_notice(op: Op) -> bool {
    op is Appeared || op is Vanished
}

/// What the latest notice about `id` among `ops` says: `Some(true)` that it
/// appeared, `Some(false)` that it vanished, `None` when there is none.
pub open spec fn last_notice(ops: Seq<Op>, id: Seq<u8>) -> Option<bool>
    decreases ops.len(),
{
    if ops.len() == 0 {
        None
    } else {
        let earlier = last_notice(ops.drop_last(), id);
        match ops.last() {
            Op::Appeared(peer) => if peer == id {
                Some(true)
            } else {
                earlier
            },
            Op::Vanished(peer) => if peer == id {
                Some(false)
            } else {
                earlier
            },
            _ => earlier,
        }
    }
}

/// Every operation keeps both peer sets free of duplicates.
pub proof fn lemma_step_wf(r: Registry, op: Op)
    requires
        r.wf(),
    ensures
        r.step(op).wf(),
{
    match op {
        Op::Appeared(id) => lemma_with_peer(r.known, id),
        Op::Connected(id) => lemma_with_peer(r.connected, id),
        Op::Vanished(id) => {
            lemma_without(r.known, id);
            lemma_without(r.connected, id);
        },
        Op::Disconnected(id) | Op::DialFailed(id) => lemma_without(r.connected, id),
        _ => {},
    }
}

/// Every sequence of operations keeps both peer sets free of duplicates.
pub proof fn lemma_run_wf(r: Registry, ops: Seq<Op>)
    requires
        r.wf(),
    ensures
        r.run(ops).wf(),
    decreases ops.len(),
{
    if ops.len() > 0 {
        lemma_run_wf(r, ops.drop_last());
        lemma_step_wf(r.run(ops.drop_last()), ops.last());
    }
}

/// Only discovery changes which peers are known: connecting, disconnecting, failed
/// dials, requests, outcomes and dispatch cycles leave the known peers as they are.
pub proof fn lemma_known_changes_by_notices_only(r: Registry, op: Op)
    requires
        !is_notice(op),
    ensures
        r.step(op).known == r.known,
{
}

/// A notice from discovery that is repeated changes nothing the second time.
pub proof fn lemma_notice_idempotent(r: Registry, op: Op)
    requires
        r.wf(),
        is_notice(op),
    ensures
        r.step(op).step(op) == r.step(op),
{
    match op {
        Op::Appeared(id) => {
            assert(with_peer(r.known, id).contains(id)) by {
                if !r.known.contains(id) {
                    assert(r.known.push(id)[r.known.len() as int] == id);
                }
            }
        },
        Op::Vanished(id) => {
            lemma_without(r.known, id);
            lemma_without(r.connected, id);
        },
        _ => {},
    }
}

/// After any sequence of operations, a peer is known exactly if the latest notice
/// from discovery about it says that it appeared; a peer that no notice speaks of
/// is known exactly if it was known before. Repeated notices and whatever else
/// happens in between (connections opening and closing, failed dials, requests,
/// outcomes, dispatch cycles) make no difference.
pub proof fn lemma_known_after_notices(r: Registry, ops: Seq<Op>, id: Seq<u8>)
    requires
        r.wf(),
    ensures
        r.run(ops).wf(),
        r.run(ops).known.to_set().contains(id) == (match last_notice(ops, id) {
            Some(appeared) => appeared,
            None => r.known.to_set().contains(id),
        }),
    decreases ops.len(),
{
    if ops.len() > 0 {
        let before = r.run(ops.drop_last());
        lemma_known_after_notices(r, ops.drop_last(), id);
        lemma_step_wf(before, ops.last());
        match ops.last() {
            Op::Appeared(peer) => lemma_with_peer(before.known, peer),
            Op::Vanished(peer) => lemma_without(before.known, peer),
            other => lemma_known_changes_by_notices_only(before, other),
        }
    }
}

/// While no peer is connected and none connects, no dispatch cycle sends: the
/// decision is never a send, and no waiting file leaves the queue.
pub proof fn lemma_no_send_without_connection(r: Registry, ops: Seq<Op>)
    requires
        r.connected.len() == 0,
        forall|i: int| 0 <= i < ops.len() ==> !(#[trigger] ops[i] is Connected),
    ensures
        r.run(ops).connected.len() == 0,
        !(r.run(ops).decide() is Send),
        r.pending.is_prefix_of(r.run(ops).pending),
    decreases ops.len(),
{
    if ops.len() > 0 {
        let before = r.run(ops.drop_last());
        assert forall|i: int| 0 <= i < ops.drop_last().len() implies !(
        #[trigger] ops.drop_last()[i] is Connected) by {
            assert(ops.drop_last()[i] == ops[i]);
        }
        lemma_no_send_without_connection(r, ops.drop_last());
        assert(!(ops[ops.len() - 1] is Connected));
        assert(forall|id: Seq<u8>| !before.connected.contains(id));
    }
}

/// `n` dispatch cycles in a row.
pub open spec fn polls(n: nat) -> Seq<Op> {
    Seq::new(n, |i: int| Op::Poll)
}

/// With a peer connected and nothing to deliver, every dispatch cycle sends the
/// oldest waiting file to the first connected peer: after `k` cycles exactly the
/// first `k` files have left the queue, each once, and the registry is otherwise
/// unchanged.
pub proof fn lemma_polls_drain_queue(r: Registry, k: nat)
    requires
        r.events.len() == 0,
        r.connected.len() > 0,
        k <= r.pending.len(),
    ensures
        r.run(polls(k)) == (Registry { pending: r.pending.skip(k as int), ..r }),
        k < r.pending.len() ==> r.run(polls(k)).decide() == (ActionView::Send {
            peer: r.connected[0],
            payload: PayloadView {
                name: r.pending[k as int].name,
                path: r.pending[k as int].path,
                hash: Seq::empty(),
                size_bytes: 0,
            },
        }),
    decreases k,
{
    if k == 0 {
        assert(r.pending.skip(0) =~= r.pending);
    } else {
        let j = (k - 1) as nat;
        lemma_polls_drain_queue(r, j);
        assert(polls(k).drop_last() =~= polls(j));
        assert(polls(k).last() == Op::Poll);
        assert(r.pending.skip(j as int).drop_first() =~= r.pending.skip(k as int));
    }
}

/// The outcomes of transfers are delivered in the order in which they arrived, each
/// once: after `k` dispatch cycles exactly the first `k` have left the queue, and
/// the registry is otherwise unchanged.
pub proof fn lemma_polls_deliver_in_order(r: Registry, k: nat)
    requires
        k <= r.events.len(),
    ensures
        r.run(polls(k)) == (Registry { events: r.events.skip(k as int), ..r }),
        k < r.events.len() ==> r.run(polls(k)).decide() == ActionView::Deliver(
            r.events[k as int],
        ),
    decreases k,
{
    if k == 0 {
        assert(r.events.skip(0) =~= r.events);
    } else {
        let j = (k - 1) as nat;
        lemma_polls_deliver_in_order(r, j);
        assert(polls(k).drop_last() =~= polls(j));
        assert(polls(k).last() == Op::Poll);
        assert(r.events.skip(j as int).drop_first() =~= r.events.skip(k as int));
    }
}

/// Registry and dispatcher of one node.
#[derive(Debug)]
pub struct TransferBehaviour {
    peers: PeerSet,
    connected_peers: PeerSet,
    events: Vec<ProtocolEvent>,
    payloads: Vec<FileToSend>,
}

impl TransferBehaviour {
    /// The registry as plain values.
    pub closed spec fn state(&self) -> Registry {
        Registry {
            known: self.peers.order(),
            connected: self.connected_peers.order(),
            events: Seq::new(self.events@.len(), |i: int| self.events@[i]@),
            pending: Seq::new(self.payloads@.len(), |i: int| self.payloads@[i]@),
        }
    }

    /// No peer is listed twice.
    pub open spec fn wf(&self) -> bool {
        self.state().wf()
    }

    pub fn new() -> (r: Self)
        ensures
            r.wf(),
            r.state() == Registry::empty(),
    {
        let r = TransferBehaviour {
            peers: PeerSet::new(),
            connected_peers: PeerSet::new(),
            events: Vec::new(),
            payloads: Vec::new(),
        };
        assert(r.state().events =~= Seq::empty());
        assert(r.state().pending =~= Seq::empty());
        r
    }

    /// Queues the file at `path` for sending under `name`. Whether the file exists
    /// is found out when it is sent.
    pub fn enqueue_send(&mut self, name: String, path: String)
        ensures
            final(self).state() == old(self).state().enqueued(
                FileView { name: name@, path: path@ },
            ),
            final(self).wf() == old(self).wf(),
    {
        let file = FileToSend { name, path };
        self.payloads.push(file);
        assert(self.state().pending =~= old(self).state().pending.push(
            FileView { name: name@, path: path@ },
        ));
    }

    /// Queues the file at `payload` for sending, under that same text as its name.
    pub fn push_payload(&mut self, payload: String)
        ensures
            final(self).state() == old(self).state().enqueued(
                FileView { name: payload@, path: payload@ },
            ),
            final(self).wf() == old(self).wf(),
    {
        let path = payload.clone();
        self.enqueue_send(payload, path);
    }

    /// Discovery has found `peer`.
    pub fn peer_appeared(&mut self, peer: PeerId)
        requires
            old(self).wf(),
        ensures
            final(self).wf(),
            final(self).state() == old(self).state().appeared(peer@),
    {
        self.peers.insert(peer);
    }

    /// Discovery has lost `peer`.
    pub fn peer_vanished(&mut self, peer: &PeerId)
        requires
            old(self).wf(),
        ensures
            final(self).wf(),
            final(self).state() == old(self).state().vanished(peer@),
    {
        self.peers.remove(peer);
        self.connected_peers.remove(peer);
    }

    /// A connection to `peer` is open.
    pub fn inject_connected(&mut self, peer: PeerId)
        requires
            old(self).wf(),
        ensures
            final(self).wf(),
            final(self).state() == old(self).state().connected_to(peer@),
    {
        self.connected_peers.insert(peer);
    }

    /// A dial of `peer` has failed.
    pub fn inject_dial_failure(&mut self, peer: &PeerId)
        requires
            old(self).wf(),
        ensures
            final(self).wf(),
            final(self).state() == old(self).state().dial_failed(peer@),
    {
        self.connected_peers.remove(peer);
    }

    /// The connection to `peer` is closed. The peer stays known.
    pub fn inject_disconnected(&mut self, peer: &PeerId)
        requires
            old(self).wf(),
        ensures
            final(self).wf(),
            final(self).state() == old(self).state().disconnected(peer@),
    {
        self.connected_peers.remove(peer);
    }

    /// A stream to or from `peer` has ended its transfer, with this outcome.
    pub fn inject_node_event(&mut self, peer: PeerId, event: ProtocolEvent)
        ensures
            final(self).state() == old(self).state().completed(event@),
            final(self).wf() == old(self).wf(),
    {
        let ghost view = event@;
        self.events.push(event);
        assert(self.state().events =~= old(self).state().events.push(view));
    }

    /// One dispatch cycle: at most one action, chosen by `Registry::decide`.
    pub fn poll(&mut self) -> (action: DispatchAction)
        requires
            old(self).wf(),
        ensures
            final(self).wf(),
            action@ == old(self).state().decide(),
            final(self).state() == old(self).state().after_decision(),
    {
        if self.events.len() > 0 {
            let event = self.events.remove(0);
            assert(self.state().events =~= old(self).state().events.drop_first());
            return DispatchAction::Deliver(event);
        }
        if self.connected_peers.len() > 0 && self.payloads.len() > 0 {
            let peer = self.connected_peers.get(0).duplicate();
            let file = self.payloads.remove(0);
            assert(self.state().pending =~= old(self).state().pending.drop_first());
            let payload = TransferPayload::new(file.name, file.path, String::new(), 0);
            return DispatchAction::Send { peer, payload };
        }
        let mut i: usize = 0;
        while i < self.peers.len()
            invariant
                i <= self.peers.order().len(),
                *self == *old(self),
                self.wf(),
                self.state().events.len() == 0,
                !(self.state().connected.len() > 0 && self.state().pending.len() > 0),
                self.state().dial_target(0) == self.state().dial_target(i as int),
            decreases self.peers.order().len() - i,
        {
            let candidate = self.peers.get(i);
            if !self.connected_peers.contains(candidate) {
                return DispatchAction::Dial { peer: candidate.duplicate() };
            }
            i += 1;
        }
        DispatchAction::Idle
    }

    pub fn is_known(&self, peer: &PeerId) -> (r: bool)
        ensures
            r == self.state().known.contains(peer@),
    {
        self.peers.contains(peer)
    }

    pub fn is_connected(&self, peer: &PeerId) -> (r: bool)
        ensures
            r == self.state().connected.contains(peer@),
    {
        self.connected_peers.contains(peer)
    }

    /// Number of files that wait to be sent.
    pub fn pending_files(&self) -> (r: usize)
        ensures
            r == self.state().pending.len(),
    {
        self.payloads.len()
    }

    /// Number of outcomes of transfers that wait to be delivered.
    pub fn queued_events(&self) -> (r: usize)
        ensures
            r == self.state().events.len(),
    {
        self.events.len()
    }
}

} // verus!
