//! The client registry and the broadcast hub that drives it.
use futures::channel::mpsc::UnboundedSender;
use ntex::util::Bytes;
use std::collections::HashMap;
use vstd::prelude::*;
use vstd::std_specs::iter::IteratorSpec;

use crate::frame::{encode_json, frame_of, frame_text};

verus! {

/// The write end of a subscriber's channel.
pub type EventSender = UnboundedSender<Bytes>;

/// A registered subscriber: its identity, the write end of its channel,
/// and a record of every frame handed to that channel, each with whether
/// the channel took it.
pub struct EventClient {
    pub id: usize,
    pub sender: EventSender,
    pub sent: Ghost<Seq<(Seq<char>, bool)>>,
}

/// `after` is `before` once `frame` was handed to its channel, with
/// outcome `ok`: the same subscriber, with one more entry in its record.
pub open spec fn handed(before: EventClient, after: EventClient, frame: Seq<char>, ok: bool) -> bool {
    &&& after.id == before.id
    &&& after.sender == before.sender
    &&& after.sent@ == before.sent@.push((frame, ok))
}

/// An event to broadcast: a name and a structured payload.
pub struct EventMessage {
    pub name: String,
    pub data: serde_json::Value,
}

/// A command to the hub.
pub enum Event {
    AddClient(EventSender),
    Emit(EventMessage),
}

/// What one fan-out pass did: the identities of its snapshot, in order;
/// whether the channel of each took the frame; and the subscribers whose
/// channel refused it, taken out of the registry, in order.
pub struct FanOut {
    pub attempted: Vec<usize>,
    pub delivered: Vec<bool>,
    pub dropped: Vec<EventClient>,
}

/// The identities among `ids` whose outcome in `ok`, at the same place, is
/// a failure, in the order of `ids`.
pub open spec fn failed_ids(ids: Seq<usize>, ok: Seq<bool>) -> Seq<usize>
    decreases ids.len(),
{
    if ids.len() == 0 || ok.len() == 0 {
        Seq::empty()
    } else if ok.last() {
        failed_ids(ids.drop_last(), ok.drop_last())
    } else {
        failed_ids(ids.drop_last(), ok.drop_last()).push(ids.last())
    }
}

/// Relies on futures' UnboundedSender::unbounded_send: it hands `frame`, as
/// bytes, to the client's channel once, without waiting, and fails when the
/// receiving end is gone. Which of the two happens depends on the
/// subscriber; the client's record notes the frame and the outcome.
#[verifier::external_body]
fn deliver(client: &mut EventClient, frame: &String) -> (delivered: bool)
    ensures
        handed(*old(client), *final(client), frame@, delivered),
{
    client.sender.unbounded_send(Bytes::from(frame.clone())).is_ok()
}

/// The registry of live subscribers. Identities come from a counter that
/// only grows, so an identity is never handed out twice.
pub struct EventHandler {
    clients: HashMap<usize, EventClient>,
    next_id: usize,
}

impl EventHandler {
    /// The identities currently registered.
    pub closed spec fn registered(&self) -> Set<usize> {
        self.clients@.dom()
    }

    /// How many identities have been handed out so far, counting from one:
    /// every identity ever given is below this bound.
    pub closed spec fn issued(&self) -> nat {
        self.next_id as nat
    }

    /// The subscriber registered under `id`.
    pub closed spec fn entry(&self, id: usize) -> EventClient {
        self.clients@[id]
    }

    /// Each entry is filed under its own identity, every identity lies
    /// between one and the counter, and there are finitely many.
    pub closed spec fn wf(&self) -> bool {
        &&& self.next_id >= 1
        &&& self.clients@.dom().finite()
        &&& forall|i: usize| #[trigger]
            self.clients@.contains_key(i) ==> self.clients@[i].id == i && 1 <= i < self.next_id
    }

    /// `id` was handed out once and is no longer registered.
    pub open spec fn retired(&self, id: usize) -> bool {
        id < self.issued() && !self.registered().contains(id)
    }

    /// Both registries hold the same subscriber, record included, under
    /// every identity they share.
    pub open spec fn same_entries(&self, other: &EventHandler) -> bool {
        forall|i: usize|
            self.registered().contains(i) && other.registered().contains(i) ==> #[trigger]
                self.entry(i) == other.entry(i)
    }

    /// An empty registry whose first identity will be one.
    pub fn new() -> (r: EventHandler)
        ensures
            r.wf(),
            r.registered() == Set::<usize>::empty(),
            r.issued() == 1,
    {
        EventHandler { clients: HashMap::new(), next_id: 1 }
    }

    /// Registers `socket` under a fresh identity, with an empty record, and
    /// returns that identity. Nothing is handed to any channel. Once the
    /// counter is exhausted the subscription is dropped.
    pub fn add_client(&mut self, socket: EventSender) -> (r: Option<usize>)
        requires
            old(self).wf(),
        ensures
            final(self).wf(),
            old(self).issued() < usize::MAX ==> {
                let id = old(self).issued() as usize;
                &&& r == Some(id)
                &&& !old(self).registered().contains(id)
                &&& final(self).registered() == old(self).registered().insert(id)
                &&& final(self).entry(id).id == id
                &&& final(self).entry(id).sender == socket
                &&& final(self).entry(id).sent@ == Seq::<(Seq<char>, bool)>::empty()
                &&& final(self).issued() == old(self).issued() + 1
            },
            old(self).issued() == usize::MAX ==> r is None && final(self).registered() == old(
                self,
            ).registered() && final(self).issued() == old(self).issued(),
            final(self).same_entries(old(self)),
            forall|i: usize| #[trigger] old(self).retired(i) ==> final(self).retired(i),
    {
        if self.next_id == usize::MAX {
            return None;
        }
        let id = self.next_id;
        self.clients.insert(id, EventClient { id, sender: socket, sent: Ghost(Seq::empty()) });
        self.next_id = id + 1;
        Some(id)
    }

    /// Whether `id` is registered.
    pub fn is_registered(&self, id: usize) -> (r: bool)
        ensures
            r == self.registered().contains(id),
    {
        self.clients.contains_key(&id)
    }

    /// How many subscribers are registered.
    pub fn client_count(&self) -> (r: usize)
        requires
            self.wf(),
        ensures
            self.registered().finite(),
            r == self.registered().len(),
    {
        self.clients.len()
    }

    /// Removes `id` from the registry; removing an absent identity does
    /// nothing.
    pub fn remove_client(&mut self, id: usize)
        requires
            old(self).wf(),
        ensures
            final(self).wf(),
            final(self).registered() == old(self).registered().remove(id),
            final(self).issued() == old(self).issued(),
            final(self).same_entries(old(self)),
    {
        self.clients.remove(&id);
    }

    /// A copy of the registered identities, each once, to iterate over
    /// without borrowing the registry.
    pub fn snapshot(&self) -> (r: Vec<usize>)
        ensures
            r@.no_duplicates(),
            r@.to_set() == self.registered(),
    {
        let ghost keys = vstd::std_specs::hash::spec_keys_iter(&self.clients).remaining();
        let mut ids: Vec<usize> = Vec::new();
        for k in it: self.clients.keys()
            invariant
                it.seq() == keys,
                ids@.len() == it.index(),
                forall|j: int| 0 <= j < it.index() ==> ids@[j] == *keys[j],
        {
            ids.push(*k);
        }
        assert(ids@ =~= keys.unref());
        ids
    }

    /// What a fan-out pass of `frame` from `before` to `after` that
    /// reported `r` did. Its snapshot holds every subscriber registered in
    /// `before`, each once, and each of them was handed `frame` exactly
    /// once. One whose channel took it stays, its record grown by that one
    /// frame; one whose channel refused it left the registry and stands in
    /// `dropped`, its record grown likewise.
    pub open spec fn fanned_out(
        before: &EventHandler,
        after: &EventHandler,
        r: &FanOut,
        frame: Seq<char>,
    ) -> bool {
        &&& r.attempted@.no_duplicates()
        &&& r.attempted@.to_set() == before.registered()
        &&& r.delivered@.len() == r.attempted@.len()
        &&& after.registered().subset_of(before.registered())
        &&& forall|k: int|
            0 <= k < r.attempted@.len() ==> (after.registered().contains(#[trigger] r.attempted@[k])
                <==> r.delivered@[k])
        &&& forall|k: int|
            0 <= k < r.attempted@.len() && r.delivered@[k] ==> handed(
                before.entry(#[trigger] r.attempted@[k]),
                after.entry(r.attempted@[k]),
                frame,
                true,
            )
        &&& r.dropped@.map_values(|c: EventClient| c.id) == failed_ids(r.attempted@, r.delivered@)
        &&& forall|j: int|
            0 <= j < r.dropped@.len() ==> handed(
                before.entry(r.dropped@[j].id),
                #[trigger] r.dropped@[j],
                frame,
                false,
            )
        &&& after.issued() == before.issued()
    }

    /// Hands `frame` to every channel of a snapshot of the registry, once
    /// each, and prunes each subscriber whose channel refuses it.
    pub fn fan_out(&mut self, frame: &String) -> (r: FanOut)
        requires
            old(self).wf(),
        ensures
            final(self).wf(),
            Self::fanned_out(old(self), final(self), &r, frame@),
            old(self).registered().is_empty() ==> r.attempted@.len() == 0 && r.dropped@.len() == 0
                && final(self).registered() == old(self).registered(),
    {
        let ghost before = *self;
        let ids = self.snapshot();
        let mut delivered: Vec<bool> = Vec::new();
        let mut dropped: Vec<EventClient> = Vec::new();
        let mut k: usize = 0;
        while k < ids.len()
            invariant
                self.wf(),
                k <= ids.len(),
                delivered.len() == k,
                ids@.no_duplicates(),
                ids@.to_set() == before.registered(),
                self.issued() == before.issued(),
                self.registered().subset_of(before.registered()),
                forall|j: int|
                    k <= j < ids.len() ==> self.registered().contains(#[trigger] ids@[j])
                        && self.entry(ids@[j]) == before.entry(ids@[j]),
                forall|j: int|
                    0 <= j < k ==> (self.registered().contains(#[trigger] ids@[j])
                        <==> delivered@[j]),
                forall|j: int|
                    0 <= j < k && delivered@[j] ==> handed(
                        before.entry(#[trigger] ids@[j]),
                        self.entry(ids@[j]),
                        frame@,
                        true,
                    ),
                dropped@.map_values(|c: EventClient| c.id) == failed_ids(
                    ids@.take(k as int),
                    delivered@,
                ),
                forall|j: int|
                    0 <= j < dropped@.len() ==> handed(
                        before.entry(dropped@[j].id),
                        #[trigger] dropped@[j],
                        frame@,
                        false,
                    ),
            decreases ids.len() - k,
        {
            let ghost prev = *self;
            let ghost prev_delivered = delivered@;
            let ghost prev_dropped = dropped@;
            let id = ids[k];
            assert(ids@.to_set().contains(id));
            assert forall|j: int| 0 <= j < ids.len() && j != k implies ids@[j] != id by {}
            let taken = self.clients.remove(&id);
            let ok = match taken {
                Some(mut client) => {
                    let ok = deliver(&mut client, frame);
                    if ok {
                        self.clients.insert(id, client);
                    } else {
                        dropped.push(client);
                    }
                    ok
                },
                None => {
                    proof {
                        assert(false);
                    }
                    false
                },
            };
            delivered.push(ok);
            proof {
                assert(ids@.take(k + 1).drop_last() =~= ids@.take(k as int));
                assert(delivered@.drop_last() =~= prev_delivered);
                if ok {
                    assert(dropped@ == prev_dropped);
                } else {
                    assert(dropped@.map_values(|c: EventClient| c.id) =~= prev_dropped.map_values(
                        |c: EventClient| c.id,
                    ).push(id));
                }
                assert forall|j: int| 0 <= j < k + 1 implies (self.registered().contains(
                    #[trigger] ids@[j],
                ) <==> delivered@[j]) by {
                    if j < k {
                        assert(ids@[j] != id);
                    }
                }
                assert forall|j: int| 0 <= j < k + 1 && delivered@[j] implies handed(
                    before.entry(#[trigger] ids@[j]),
                    self.entry(ids@[j]),
                    frame@,
                    true,
                ) by {
                    if j < k {
                        assert(ids@[j] != id);
                    }
                }
                assert forall|j: int| k + 1 <= j < ids.len() implies self.registered().contains(
                    #[trigger] ids@[j],
                ) && self.entry(ids@[j]) == before.entry(ids@[j]) by {
                    assert(ids@[j] != id);
                }
                assert forall|j: int| 0 <= j < dropped@.len() implies handed(
                    before.entry(dropped@[j].id),
                    #[trigger] dropped@[j],
                    frame@,
                    false,
                ) by {
                    if j < prev_dropped.len() {
                        assert(dropped@[j] == prev_dropped[j]);
                    }
                }
                assert(self.registered().subset_of(before.registered()));
            }
            k = k + 1;
        }
        assert(ids@.take(ids.len() as int) =~= ids@);
        proof {
            if before.registered().is_empty() {
                if ids@.len() > 0 {
                    assert(ids@.to_set().contains(ids@[0]));
                }
                assert(dropped@.map_values(|c: EventClient| c.id).len() == 0);
                assert(self.registered() =~= before.registered());
            }
        }
        FanOut { attempted: ids, delivered, dropped }
    }

    /// The frame of `message`: its name, and its payload encoded as JSON.
    pub fn serialize_message(message: &EventMessage) -> (r: Option<String>)
        ensures
            r is Some,
            r matches Some(f) ==> exists|d: Seq<char>|
                !d.contains('\n') && f@ == frame_text(message.name@, d),
    {
        match encode_json(&message.data) {
            Some(d) => Some(frame_of(message.name.as_str(), d.as_str())),
            None => None,
        }
    }

    /// Broadcasts `message`: hands its frame to every registered
    /// subscriber, once each, and prunes those whose channel refuses it.
    pub fn emit_message(&mut self, message: &EventMessage) -> (r: Option<FanOut>)
        requires
            old(self).wf(),
        ensures
            final(self).wf(),
            r is Some,
            r matches Some(f) ==> exists|d: Seq<char>|
                !d.contains('\n') && Self::fanned_out(
                    old(self),
                    final(self),
                    &f,
                    frame_text(message.name@, d),
                ),
    {
        match Self::serialize_message(message) {
            Some(frame) => {
                let ghost d = choose|d: Seq<char>|
                    !d.contains('\n') && frame@ == frame_text(message.name@, d);
                let f = self.fan_out(&frame);
                assert(!d.contains('\n') && Self::fanned_out(
                    old(self),
                    self,
                    &f,
                    frame_text(message.name@, d),
                ));
                Some(f)
            },
            None => None,
        }
    }

    /// Processes one command: registers a subscriber, or broadcasts a
    /// message and reports the fan-out.
    pub fn handle_events(&mut self, event: Event) -> (r: Option<FanOut>)
        requires
            old(self).wf(),
        ensures
            final(self).wf(),
            forall|i: usize| #[trigger] old(self).retired(i) ==> final(self).retired(i),
            match event {
                Event::AddClient(socket) => {
                    &&& r is None
                    &&& final(self).same_entries(old(self))
                    &&& old(self).registered().subset_of(final(self).registered())
                    &&& old(self).issued() < usize::MAX ==> {
                        let id = old(self).issued() as usize;
                        &&& !old(self).registered().contains(id)
                        &&& final(self).registered() == old(self).registered().insert(id)
                        &&& final(self).entry(id).sender == socket
                        &&& final(self).entry(id).sent@ == Seq::<(Seq<char>, bool)>::empty()
                        &&& final(self).issued() == old(self).issued() + 1
                    }
                    &&& old(self).issued() == usize::MAX ==> final(self).registered() == old(
                        self,
                    ).registered() && final(self).issued() == old(self).issued()
                },
                Event::Emit(m) => {
                    &&& r is Some
                    &&& r matches Some(f) && exists|d: Seq<char>|
                        !d.contains('\n') && Self::fanned_out(
                            old(self),
                            final(self),
                            &f,
                            frame_text(m.name@, d),
                        )
                },
            },
    {
        match event {
            Event::AddClient(socket) => {
                self.add_client(socket);
                None
            },
            Event::Emit(message) => self.emit_message(&message),
        }
    }
}

/// A fan-out pass hands its frame to each subscriber registered before it
/// exactly once: its identity stands at exactly one place among those
/// attempted, and its record grew by exactly that frame.
pub proof fn lemma_each_subscriber_once(
    before: &EventHandler,
    after: &EventHandler,
    r: &FanOut,
    frame: Seq<char>,
    id: usize,
)
    requires
        EventHandler::fanned_out(before, after, r, frame),
        before.registered().contains(id),
    ensures
        exists|k: int|
            0 <= k < r.attempted@.len() && r.attempted@[k] == id && forall|m: int|
                0 <= m < r.attempted@.len() && #[trigger] r.attempted@[m] == id ==> m == k,
        after.registered().contains(id) ==> after.entry(id).sent@ == before.entry(id).sent@.push(
            (frame, true),
        ),
{
    assert(r.attempted@.to_set().contains(id));
    let k = choose|k: int| 0 <= k < r.attempted@.len() && r.attempted@[k] == id;
    assert forall|m: int| 0 <= m < r.attempted@.len() && #[trigger] r.attempted@[m] == id implies m
        == k by {}
}

/// A subscriber whose channel refused a frame is pruned for good: it is
/// retired after the pass, and a later pass from a state where it is
/// retired does not hand it anything and leaves it retired.
pub proof fn lemma_pruned_stays_out(
    before: &EventHandler,
    after: &EventHandler,
    r: &FanOut,
    frame: Seq<char>,
    k: int,
    later: &EventHandler,
    next: &EventHandler,
    r2: &FanOut,
    frame2: Seq<char>,
)
    requires
        before.wf(),
        EventHandler::fanned_out(before, after, r, frame),
        0 <= k < r.attempted@.len(),
        !r.delivered@[k],
        later.retired(r.attempted@[k]),
        EventHandler::fanned_out(later, next, r2, frame2),
    ensures
        after.retired(r.attempted@[k]),
        !r2.attempted@.contains(r.attempted@[k]),
        next.retired(r.attempted@[k]),
{
    let id = r.attempted@[k];
    assert(r.attempted@.contains(id));
    assert(before.registered().contains(id));
    if r2.attempted@.contains(id) {
        assert(r2.attempted@.to_set().contains(id));
    }
}

} // verus!
