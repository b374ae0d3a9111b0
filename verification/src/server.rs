//! The decisions of the broadcast server: who is connected, and who is sent
//! what.
//!
//! One owner holds the registry and feeds it the events of the connections in
//! the order in which they arrive. Each event changes the registry or yields
//! the jobs that a writer then carries out; nothing here touches a socket.

use crate::message::{ChatLibError, Message, MessageView};
use vstd::prelude::*;

verus! {

/// The network address of a peer, as plain numbers.
#[derive(Debug, Clone, Copy, PartialEq, Eq, Hash, Structural)]
#[allow(inconsistent_fields)]
pub enum PeerAddr {
    /// An IPv4 address and a port.
    V4 { ip: u32, port: u16 },
    /// An IPv6 address, a port, the flow information and the scope.
    V6 { ip: u128, port: u16, flowinfo: u32, scope_id: u32 },
}

/// The addresses of `addresses` other than `from`, in their order.
pub open spec fn others(addresses: Seq<PeerAddr>, from: PeerAddr) -> Seq<PeerAddr>
    decreases addresses.len(),
{
    if addresses.len() == 0 {
        Seq::empty()
    } else if addresses.last() == from {
        others(addresses.drop_last(), from)
    } else {
        others(addresses.drop_last(), from).push(addresses.last())
    }
}

/// The addresses once `address` has connected: it is added at the end unless
/// it is there already.
pub open spec fn joined(addresses: Seq<PeerAddr>, address: PeerAddr) -> Seq<PeerAddr> {
    if addresses.contains(address) {
        addresses
    } else {
        addresses.push(address)
    }
}

/// What `others` keeps: every address but `from`, each as often as it stood
/// there, and nothing else.
pub proof fn lemma_others(addresses: Seq<PeerAddr>, from: PeerAddr)
    ensures
        !others(addresses, from).contains(from),
        forall|a: PeerAddr|
            a != from ==> (#[trigger] others(addresses, from).contains(a) <==> addresses.contains(
                a,
            )),
        addresses.no_duplicates() ==> others(addresses, from).no_duplicates(),
        others(addresses, from).len() <= addresses.len(),
        !addresses.contains(from) ==> others(addresses, from) == addresses,
    decreases addresses.len(),
{
    if addresses.len() > 0 {
        let init = addresses.drop_last();
        let last = addresses.last();
        lemma_others(init, from);
        let kept = others(init, from);
        assert(addresses =~= init.push(last));
        assert forall|a: PeerAddr| a != from implies (#[trigger] others(addresses, from).contains(
            a,
        ) <==> addresses.contains(a)) by {
            if addresses.contains(a) {
                let i = choose|i: int| 0 <= i < addresses.len() && addresses[i] == a;
                if i < init.len() {
                    assert(init[i] == a);
                    assert(kept.contains(a));
                    let j = choose|j: int| 0 <= j < kept.len() && kept[j] == a;
                    assert(others(addresses, from)[j] == a);
                } else {
                    assert(last == a);
                    assert(others(addresses, from)[kept.len() as int] == a);
                }
            }
            if others(addresses, from).contains(a) {
                let j = choose|j: int|
                    0 <= j < others(addresses, from).len() && others(addresses, from)[j] == a;
                if j < kept.len() {
                    assert(kept[j] == a);
                    assert(kept.contains(a));
                    assert(init.contains(a));
                    let i = choose|i: int| 0 <= i < init.len() && init[i] == a;
                    assert(addresses[i] == a);
                } else {
                    assert(addresses[addresses.len() - 1] == a);
                }
            }
        }
        if addresses.no_duplicates() {
            assert(init.no_duplicates());
            if last != from {
                assert(!kept.contains(last)) by {
                    if kept.contains(last) {
                        assert(init.contains(last));
                        let i = choose|i: int| 0 <= i < init.len() && init[i] == last;
                        assert(addresses[i] == addresses[addresses.len() - 1]);
                    }
                }
            }
        }
        if !addresses.contains(from) {
            assert(!init.contains(from)) by {
                if init.contains(from) {
                    let i = choose|i: int| 0 <= i < init.len() && init[i] == from;
                    assert(addresses[i] == from);
                }
            }
            assert(last != from) by {
                assert(addresses[addresses.len() - 1] == last);
            }
        }
    }
}

/// Taking the one place of an address out of the sequence leaves the others.
pub proof fn lemma_others_is_remove(addresses: Seq<PeerAddr>, i: int)
    requires
        addresses.no_duplicates(),
        0 <= i < addresses.len(),
    ensures
        others(addresses, addresses[i]) == addresses.remove(i),
    decreases addresses.len(),
{
    let from = addresses[i];
    let init = addresses.drop_last();
    let last = addresses.last();
    if i == addresses.len() - 1 {
        assert(!init.contains(from)) by {
            if init.contains(from) {
                let j = choose|j: int| 0 <= j < init.len() && init[j] == from;
                assert(addresses[j] == addresses[i]);
            }
        }
        lemma_others(init, from);
        assert(addresses.remove(i) =~= init);
    } else {
        assert(last != from) by {
            assert(addresses[addresses.len() - 1] != addresses[i]);
        }
        assert(init.no_duplicates());
        assert(init[i] == from);
        lemma_others_is_remove(init, i);
        assert(addresses.remove(i) =~= init.remove(i).push(last));
    }
}

/// Broadcast exclusion: of addresses that are registered once each, a
/// broadcast from one of them goes to each of the others once and never back
/// to the sender.
pub proof fn lemma_broadcast_exclusion(addresses: Seq<PeerAddr>, from: PeerAddr)
    requires
        addresses.no_duplicates(),
    ensures
        !others(addresses, from).contains(from),
        others(addresses, from).no_duplicates(),
        forall|a: PeerAddr|
            #![trigger others(addresses, from).contains(a)]
            others(addresses, from).contains(a) <==> addresses.contains(a) && a != from,
{
    lemma_others(addresses, from);
}

/// The connections of the server: the stream of each peer under the peer's
/// address. No address stands in it twice.
pub struct Registry<H> {
    clients: Vec<(PeerAddr, H)>,
}

impl<H> View for Registry<H> {
    type V = Map<PeerAddr, H>;

    /// The stream of each registered address.
    closed spec fn view(&self) -> Map<PeerAddr, H> {
        Map::new(
            |a: PeerAddr| self.addresses().contains(a),
            |a: PeerAddr| self.clients@[self.addresses().index_of(a)].1,
        )
    }
}

impl<H> Registry<H> {
    #[verifier::type_invariant]
    spec fn distinct(self) -> bool {
        self.addresses().no_duplicates()
    }

    /// The registered addresses, in the order in which they came.
    pub closed spec fn addresses(&self) -> Seq<PeerAddr> {
        Seq::new(self.clients@.len(), |i: int| self.clients@[i].0)
    }

    /// The registry maps the registered addresses and no others.
    pub proof fn lemma_domain(&self)
        ensures
            forall|a: PeerAddr| #[trigger] self@.contains_key(a) <==> self.addresses().contains(a),
    {
    }

    /// A registry without connections.
    pub fn new() -> (r: Self)
        ensures
            r.addresses() == Seq::<PeerAddr>::empty(),
            r@ == Map::<PeerAddr, H>::empty(),
    {
        let r = Registry { clients: Vec::new() };
        assert(r.addresses() =~= Seq::<PeerAddr>::empty());
        assert(r@ =~= Map::<PeerAddr, H>::empty());
        r
    }

    /// The number of connections.
    pub fn len(&self) -> (n: usize)
        ensures
            n == self.addresses().len(),
            n == self@.len(),
            self.addresses().no_duplicates(),
    {
        proof {
            use_type_invariant(self);
            self.lemma_len();
        }
        self.clients.len()
    }

    /// The registry holds as many streams as addresses.
    proof fn lemma_len(&self)
        requires
            self.addresses().no_duplicates(),
        ensures
            self@.dom().finite(),
            self@.len() == self.addresses().len(),
    {
        self.addresses().unique_seq_to_set();
        assert(self@.dom() =~= self.addresses().to_set());
    }

    /// Where `address` stands among the clients.
    fn position(&self, address: PeerAddr) -> (r: Option<usize>)
        ensures
            match r {
                Some(i) => i < self.addresses().len() && self.addresses()[i as int] == address
                    && self.addresses().index_of(address) == i,
                None => !self.addresses().contains(address),
            },
    {
        proof {
            use_type_invariant(self);
        }
        let mut i: usize = 0;
        while i < self.clients.len()
            invariant
                i <= self.clients@.len(),
                self.addresses().len() == self.clients@.len(),
                self.addresses().no_duplicates(),
                forall|j: int| 0 <= j < i ==> self.addresses()[j] != address,
            decreases self.clients@.len() - i,
        {
            if self.clients[i].0 == address {
                assert(self.addresses()[i as int] == address);
                assert(self.addresses().contains(address));
                return Some(i);
            }
            i += 1;
        }
        None
    }

    /// Whether a stream is registered under `address`.
    pub fn contains(&self, address: PeerAddr) -> (b: bool)
        ensures
            b == self@.contains_key(address),
            b == self.addresses().contains(address),
    {
        self.position(address).is_some()
    }

    /// The stream that is registered under `address`.
    pub fn get(&self, address: PeerAddr) -> (r: Option<&H>)
        ensures
            match r {
                Some(stream) => self@.contains_key(address) && *stream == self@[address],
                None => !self@.contains_key(address),
            },
    {
        match self.position(address) {
            Some(i) => Some(&self.clients[i].1),
            None => None,
        }
    }

    /// Registers `stream` under `address`. A stream that was registered
    /// under that address is replaced and handed back.
    pub fn insert(&mut self, address: PeerAddr, stream: H) -> (previous: Option<H>)
        ensures
            final(self)@ == old(self)@.insert(address, stream),
            final(self).addresses() == joined(old(self).addresses(), address),
            final(self).addresses().no_duplicates(),
            previous == if old(self)@.contains_key(address) {
                Some(old(self)@[address])
            } else {
                None
            },
    {
        proof {
            use_type_invariant(&*self);
        }
        let found = self.position(address);
        // The clients are taken out while they change and put back once no
        // address stands twice among them.
        let mut clients: Vec<(PeerAddr, H)> = Vec::new();
        core::mem::swap(&mut self.clients, &mut clients);
        let previous = match found {
            Some(i) => {
                let (_, previous) = clients.remove(i);
                clients.insert(i, (address, stream));
                assert(clients@ =~= old(self).clients@.update(i as int, (address, stream)));
                Some(previous)
            },
            None => {
                clients.push((address, stream));
                None
            },
        };
        proof {
            let after = Registry { clients };
            match found {
                Some(i) => {
                    Self::lemma_replaced(*old(self), after, i as int, stream);
                },
                None => {
                    Self::lemma_pushed(*old(self), after, address, stream);
                },
            }
        }
        core::mem::swap(&mut self.clients, &mut clients);
        previous
    }

    /// A registry in which one stream was replaced maps as before but for
    /// that stream's address.
    proof fn lemma_replaced(before: Self, after: Self, i: int, stream: H)
        requires
            before.addresses().no_duplicates(),
            0 <= i < before.clients@.len(),
            after.clients@ == before.clients@.update(i, (before.clients@[i].0, stream)),
        ensures
            after@ == before@.insert(before.clients@[i].0, stream),
            after.addresses() == before.addresses(),
    {
        let address = before.clients@[i].0;
        assert(after.addresses() =~= before.addresses());
        assert(before.addresses()[i] == address);
        assert forall|a: PeerAddr| #[trigger] after@.contains_key(a) implies after@[a]
            == before@.insert(address, stream)[a] by {
            let j = after.addresses().index_of(a);
            assert(after.addresses()[j] == a);
        }
        assert(after@ =~= before@.insert(address, stream));
    }

    /// A registry to which a stream was added under a new address maps as
    /// before, and the new address to the stream.
    proof fn lemma_pushed(before: Self, after: Self, address: PeerAddr, stream: H)
        requires
            before.addresses().no_duplicates(),
            !before.addresses().contains(address),
            after.clients@ == before.clients@.push((address, stream)),
        ensures
            after@ == before@.insert(address, stream),
            after.addresses() == before.addresses().push(address),
            after.addresses().no_duplicates(),
    {
        assert(after.addresses() =~= before.addresses().push(address));
        assert forall|a: PeerAddr|
            after.addresses().contains(a) <==> (a == address || before.addresses().contains(
                a,
            )) by {
            if after.addresses().contains(a) {
                let j = after.addresses().index_of(a);
                assert(after.addresses()[j] == a);
                if j < before.addresses().len() {
                    assert(before.addresses()[j] == a);
                }
            }
            if before.addresses().contains(a) {
                let j = before.addresses().index_of(a);
                assert(after.addresses()[j] == a);
            }
            if a == address {
                assert(after.addresses()[before.addresses().len() as int] == a);
            }
        }
        assert forall|a: PeerAddr| #[trigger] after@.contains_key(a) implies after@[a]
            == before@.insert(address, stream)[a] by {
            let j = after.addresses().index_of(a);
            assert(after.addresses()[j] == a);
            if a != address {
                let k = before.addresses().index_of(a);
                assert(before.addresses()[k] == a);
                assert(after.addresses()[k] == a);
                assert(j == k);
            }
        }
        assert(after@ =~= before@.insert(address, stream));
    }
}

impl<H> Registry<H> {
    /// Unregisters `address` and hands back the stream that was registered
    /// under it. Nothing changes where none was.
    pub fn remove(&mut self, address: PeerAddr) -> (removed: Option<H>)
        ensures
            final(self)@ == old(self)@.remove(address),
            final(self).addresses() == others(old(self).addresses(), address),
            final(self).addresses().no_duplicates(),
            removed == if old(self)@.contains_key(address) {
                Some(old(self)@[address])
            } else {
                None
            },
    {
        proof {
            use_type_invariant(&*self);
            lemma_others(self.addresses(), address);
        }
        match self.position(address) {
            Some(i) => {
                let mut clients: Vec<(PeerAddr, H)> = Vec::new();
                core::mem::swap(&mut self.clients, &mut clients);
                let (_, removed) = clients.remove(i);
                proof {
                    Self::lemma_removed(*old(self), Registry { clients }, i as int);
                }
                core::mem::swap(&mut self.clients, &mut clients);
                Some(removed)
            },
            None => {
                assert(self@ =~= old(self)@.remove(address));
                None
            },
        }
    }

    /// A registry from which one client was taken maps as before but for
    /// that client's address.
    proof fn lemma_removed(before: Self, after: Self, i: int)
        requires
            before.addresses().no_duplicates(),
            0 <= i < before.clients@.len(),
            after.clients@ == before.clients@.remove(i),
        ensures
            after@ == before@.remove(before.clients@[i].0),
            after.addresses() == others(before.addresses(), before.clients@[i].0),
            after.addresses().no_duplicates(),
    {
        let address = before.clients@[i].0;
        assert(before.addresses()[i] == address);
        lemma_others_is_remove(before.addresses(), i);
        assert(after.addresses() =~= before.addresses().remove(i));
        lemma_others(before.addresses(), address);
        assert forall|a: PeerAddr| #[trigger] after@.contains_key(a) implies after@[a]
            == before@.remove(address)[a] by {
            let j = after.addresses().index_of(a);
            assert(after.addresses()[j] == a);
            let k = if j < i {
                j
            } else {
                j + 1
            };
            assert(before.addresses()[k] == a);
            assert(before.addresses().contains(a));
            assert(before.addresses().index_of(a) == k);
        }
        assert(after@ =~= before@.remove(address));
    }
}

/// What happened to a client.
#[derive(Debug, PartialEq, Eq)]
pub enum Event {
    /// The client sent a message.
    Message(Message),
    /// The client sent what the server could not make sense of; the text
    /// says what went wrong.
    ClientError(String),
    /// The client connected.
    Connected,
    /// The client is gone.
    Disconnected,
}

/// An event as a mathematical value.
pub enum EventView {
    Message(MessageView),
    ClientError(Seq<char>),
    Connected,
    Disconnected,
}

impl View for Event {
    type V = EventView;

    open spec fn view(&self) -> EventView {
        match self {
            Event::Message(message) => EventView::Message(message@),
            Event::ClientError(text) => EventView::ClientError(text@),
            Event::Connected => EventView::Connected,
            Event::Disconnected => EventView::Disconnected,
        }
    }
}

/// What kind of thing happened to a client.
#[derive(Debug, Clone, Copy, PartialEq, Eq, Structural)]
pub enum EventKind {
    Message,
    ClientError,
    Connected,
    Disconnected,
}

impl EventView {
    /// The kind of the event.
    pub open spec fn kind(self) -> EventKind {
        match self {
            EventView::Message(_) => EventKind::Message,
            EventView::ClientError(_) => EventKind::ClientError,
            EventView::Connected => EventKind::Connected,
            EventView::Disconnected => EventKind::Disconnected,
        }
    }
}

impl Event {
    /// The kind of the event.
    pub fn kind(&self) -> (k: EventKind)
        ensures
            k == self@.kind(),
    {
        match self {
            Event::Message(_) => EventKind::Message,
            Event::ClientError(_) => EventKind::ClientError,
            Event::Connected => EventKind::Connected,
            Event::Disconnected => EventKind::Disconnected,
        }
    }
}

/// The registered addresses once an event of kind `kind` has come from
/// `address`.
pub open spec fn addresses_after(addresses: Seq<PeerAddr>, address: PeerAddr, kind: EventKind) -> Seq<
    PeerAddr,
> {
    match kind {
        EventKind::Connected => joined(addresses, address),
        EventKind::Disconnected => others(addresses, address),
        EventKind::Message => addresses,
        EventKind::ClientError => addresses,
    }
}

/// The registered addresses once the events of `events` have come, each
/// from its address and in their order.
pub open spec fn addresses_after_all(
    addresses: Seq<PeerAddr>,
    events: Seq<(PeerAddr, EventKind)>,
) -> Seq<PeerAddr>
    decreases events.len(),
{
    if events.len() == 0 {
        addresses
    } else {
        addresses_after(
            addresses_after_all(addresses, events.drop_last()),
            events.last().0,
            events.last().1,
        )
    }
}

/// No event makes an address stand twice among the registered ones.
pub proof fn lemma_addresses_stay_distinct(
    addresses: Seq<PeerAddr>,
    address: PeerAddr,
    kind: EventKind,
)
    requires
        addresses.no_duplicates(),
    ensures
        addresses_after(addresses, address, kind).no_duplicates(),
{
    lemma_others(addresses, address);
    if !addresses.contains(address) {
        let added = addresses.push(address);
        assert forall|i: int, j: int| 0 <= i < j < added.len() implies added[i] != added[j] by {
            if j == addresses.len() {
                assert(addresses[i] == added[i]);
                assert(addresses.contains(added[i]));
            }
        }
    }
}

/// Disconnect cleanup: once a client is reported gone, its address is not
/// registered, and it stays so through every event that is not a connection
/// from that address; a broadcast made then, whoever it comes from, has no
/// job for it.
pub proof fn lemma_disconnect_cleanup(
    addresses: Seq<PeerAddr>,
    gone: PeerAddr,
    later: Seq<(PeerAddr, EventKind)>,
    from: PeerAddr,
)
    requires
        forall|i: int|
            0 <= i < later.len() ==> !((#[trigger] later[i]).0 == gone && later[i].1
                == EventKind::Connected),
    ensures
        !addresses_after(addresses, gone, EventKind::Disconnected).contains(gone),
        !addresses_after_all(
            addresses_after(addresses, gone, EventKind::Disconnected),
            later,
        ).contains(gone),
        !others(
            addresses_after_all(addresses_after(addresses, gone, EventKind::Disconnected), later),
            from,
        ).contains(gone),
    decreases later.len(),
{
    let start = addresses_after(addresses, gone, EventKind::Disconnected);
    lemma_others(addresses, gone);
    if later.len() > 0 {
        let before = addresses_after_all(start, later.drop_last());
        let (address, kind) = later.last();
        assert forall|i: int| 0 <= i < later.drop_last().len() implies !((
        #[trigger] later.drop_last()[i]).0 == gone && later.drop_last()[i].1
            == EventKind::Connected) by {
            assert(later.drop_last()[i] == later[i]);
        }
        lemma_disconnect_cleanup(addresses, gone, later.drop_last(), from);
        lemma_others(before, address);
        assert(later[later.len() - 1] == later.last());
        if kind == EventKind::Connected && !before.contains(address) {
            let added = before.push(address);
            if added.contains(gone) {
                let i = choose|i: int| 0 <= i < added.len() && added[i] == gone;
                if i < before.len() {
                    assert(before[i] == gone);
                }
            }
        }
    }
    let end = addresses_after_all(start, later);
    lemma_others(end, from);
}

/// An event together with the client it happened to: the client's address
/// and a handle on its stream.
#[derive(Debug, PartialEq, Eq)]
pub struct StoredData<H> {
    pub address: PeerAddr,
    pub stream: H,
    pub event: Event,
}

/// A message to write to one client.
#[derive(Debug, PartialEq, Eq)]
pub struct SendJob<H> {
    /// The address of the client.
    pub recipient: PeerAddr,
    /// A handle on the client's stream.
    pub stream: H,
    /// What to write.
    pub message: Message,
}

/// Whether `jobs` carry the message `m` to `recipients`, one job each and in
/// that order, each with a clone of the stream that `streams` holds for its
/// recipient.
pub open spec fn is_broadcast<H: Clone>(
    jobs: Seq<SendJob<H>>,
    streams: Map<PeerAddr, H>,
    recipients: Seq<PeerAddr>,
    m: MessageView,
) -> bool {
    &&& jobs.len() == recipients.len()
    &&& forall|i: int|
        0 <= i < jobs.len() ==> {
            &&& (#[trigger] jobs[i]).recipient == recipients[i]
            &&& jobs[i].message@ == m
            &&& cloned(streams[recipients[i]], jobs[i].stream)
        }
}

/// The words that open the text sent back to a client that caused an error.
pub open spec fn diagnostic_prefix() -> Seq<char> {
    "You caused an error on server "@
}

impl<H: Clone> Registry<H> {
    /// The jobs that carry `message` to every client but `from`.
    pub fn broadcast(&self, from: PeerAddr, message: &Message) -> (jobs: Vec<SendJob<H>>)
        ensures
            is_broadcast(jobs@, self@, others(self.addresses(), from), message@),
            self.addresses().no_duplicates(),
    {
        proof {
            use_type_invariant(self);
        }
        let mut jobs: Vec<SendJob<H>> = Vec::new();
        let mut i: usize = 0;
        while i < self.clients.len()
            invariant
                i <= self.clients@.len(),
                self.addresses().len() == self.clients@.len(),
                self.addresses().no_duplicates(),
                is_broadcast(
                    jobs@,
                    self@,
                    others(self.addresses().subrange(0, i as int), from),
                    message@,
                ),
            decreases self.clients@.len() - i,
        {
            let ghost seen = self.addresses().subrange(0, i as int);
            let ghost next = self.addresses().subrange(0, i + 1);
            proof {
                assert(next.drop_last() =~= seen);
                assert(next.last() == self.addresses()[i as int]);
                assert(self.addresses()[i as int] == self.clients@[i as int].0);
            }
            if self.clients[i].0 != from {
                let recipient = self.clients[i].0;
                let stream = self.clients[i].1.clone();
                proof {
                    assert(self.addresses().contains(recipient));
                    assert(self.addresses().index_of(recipient) == i);
                    assert(self@[recipient] == self.clients@[i as int].1);
                }
                jobs.push(SendJob { recipient, stream, message: message.clone() });
            }
            i += 1;
        }
        assert(self.addresses().subrange(0, i as int) =~= self.addresses());
        jobs
    }

    /// Takes in one event and says what is to be written in answer.
    ///
    /// A client that connected is registered under its address, in place of
    /// any client that was registered there. A client that is gone is
    /// unregistered. A message goes to every registered client but the one it
    /// came from. A client that caused an error is told so, and nobody else
    /// hears of it.
    pub fn dispatch(&mut self, data: StoredData<H>) -> (jobs: Vec<SendJob<H>>)
        ensures
            final(self).addresses().no_duplicates(),
            final(self).addresses() == addresses_after(
                old(self).addresses(),
                data.address,
                data.event@.kind(),
            ),
            match data.event@ {
                EventView::Connected => {
                    &&& final(self)@ == old(self)@.insert(data.address, data.stream)
                    &&& final(self).addresses() == joined(old(self).addresses(), data.address)
                    &&& jobs@.len() == 0
                },
                EventView::Disconnected => {
                    &&& final(self)@ == old(self)@.remove(data.address)
                    &&& final(self).addresses() == others(old(self).addresses(), data.address)
                    &&& jobs@.len() == 0
                },
                EventView::Message(m) => {
                    &&& final(self)@ == old(self)@
                    &&& final(self).addresses() == old(self).addresses()
                    &&& is_broadcast(
                        jobs@,
                        old(self)@,
                        others(old(self).addresses(), data.address),
                        m,
                    )
                },
                EventView::ClientError(text) => {
                    &&& final(self)@ == old(self)@
                    &&& final(self).addresses() == old(self).addresses()
                    &&& jobs@.len() == 1
                    &&& jobs@[0].recipient == data.address
                    &&& jobs@[0].stream == data.stream
                    &&& jobs@[0].message@ == MessageView::Text(diagnostic_prefix() + text)
                },
            },
    {
        proof {
            use_type_invariant(&*self);
        }
        let StoredData { address, stream, event } = data;
        match event {
            Event::Message(message) => self.broadcast(address, &message),
            Event::Disconnected => {
                self.remove(address);
                Vec::new()
            },
            Event::Connected => {
                self.insert(address, stream);
                Vec::new()
            },
            Event::ClientError(text) => {
                let told = String::from_str("You caused an error on server ").concat(
                    text.as_str(),
                );
                let mut jobs: Vec<SendJob<H>> = Vec::new();
                jobs.push(SendJob { recipient: address, stream, message: Message::Text(told) });
                jobs
            },
        }
    }
}

/// What a connection's worker does with the outcome of reading one frame:
/// the event to pass on, and whether the worker is done with the connection.
///
/// A message is passed on and the worker reads on. Any failure, of the
/// stream or of the decoding, ends the connection: the client is reported
/// gone and the worker stops.
pub fn after_read(read: Result<Message, ChatLibError>) -> (r: (Event, bool))
    ensures
        match read {
            Ok(message) => r.0@ == EventView::Message(message@) && !r.1,
            Err(_) => r.0@ == EventView::Disconnected && r.1,
        },
{
    match read {
        Ok(message) => (Event::Message(message), false),
        Err(_) => (Event::Disconnected, true),
    }
}

} // verus!
