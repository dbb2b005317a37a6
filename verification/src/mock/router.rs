//! A router between the members that may lose messages.
use crate::collections::VecSet;
use crate::mock::network::Network;
use crate::nodes::{NodeCount, NodeIndex};
use std::marker::PhantomData;
use vstd::prelude::*;

verus! {

/// Sees, and perhaps changes, the messages that get through.
pub trait NetworkHook<D>: Sized {
    /// What may come of a message: what the hook is afterwards, and what the message is.
    spec fn updates(
        before: Self,
        data: D,
        sender: NodeIndex,
        recipient: NodeIndex,
        after: Self,
        updated: D,
    ) -> bool;

    fn update_state(&mut self, data: &mut D, sender: NodeIndex, recipient: NodeIndex)
        ensures
            Self::updates(
                *old(self),
                *old(data),
                sender,
                recipient,
                *final(self),
                *final(data),
            ),
    ;
}

/// A message on its way.
pub struct Packet<D> {
    pub sender: NodeIndex,
    pub recipient: NodeIndex,
    pub data: D,
    /// Whether the network loses it.
    pub lost: bool,
}

/// A message that has got through.
pub struct Delivery<D> {
    pub recipient: NodeIndex,
    pub data: D,
    pub sender: NodeIndex,
}

/// What the hooks, one after another, may make of a message.
pub open spec fn hooked<D, HK: NetworkHook<D>>(
    hooks: Seq<HK>,
    data: D,
    sender: NodeIndex,
    recipient: NodeIndex,
    after: Seq<HK>,
    updated: D,
) -> bool
    decreases hooks.len(),
{
    if hooks.len() == 0 {
        after.len() == 0 && updated == data
    } else {
        &&& after.len() == hooks.len()
        &&& exists|middle: D|
            {
                &&& hooked(
                    hooks.drop_last(),
                    data,
                    sender,
                    recipient,
                    after.drop_last(),
                    middle,
                )
                &&& #[trigger] HK::updates(
                    hooks.last(),
                    middle,
                    sender,
                    recipient,
                    after.last(),
                    updated,
                )
            }
    }
}

/// Whether a message gets through: it is not lost, and the recipient is connected.
pub open spec fn passes<D>(connected: Set<NodeIndex>, packet: Packet<D>) -> bool {
    !packet.lost && connected.contains(packet.recipient)
}

/// What comes of one more message.
pub open spec fn one_delivered<D, HK: NetworkHook<D>>(
    connected: Set<NodeIndex>,
    hooks: Seq<HK>,
    before: Seq<Delivery<D>>,
    packet: Packet<D>,
    after: Seq<HK>,
    deliveries: Seq<Delivery<D>>,
) -> bool {
    if passes(connected, packet) {
        &&& deliveries.len() == before.len() + 1
        &&& deliveries.drop_last() == before
        &&& deliveries.last().sender == packet.sender
        &&& deliveries.last().recipient == packet.recipient
        &&& hooked(
            hooks,
            packet.data,
            packet.sender,
            packet.recipient,
            after,
            deliveries.last().data,
        )
    } else {
        after == hooks && deliveries == before
    }
}

/// What comes of some messages, one after another.
pub open spec fn delivered<D, HK: NetworkHook<D>>(
    connected: Set<NodeIndex>,
    hooks: Seq<HK>,
    packets: Seq<Packet<D>>,
    after: Seq<HK>,
    deliveries: Seq<Delivery<D>>,
) -> bool
    decreases packets.len(),
{
    if packets.len() == 0 {
        after == hooks && deliveries.len() == 0
    } else {
        exists|middle: Seq<HK>, before: Seq<Delivery<D>>|
            {
                &&& delivered(connected, hooks, packets.drop_last(), middle, before)
                &&& #[trigger] one_delivered(
                    connected,
                    middle,
                    before,
                    packets.last(),
                    after,
                    deliveries,
                )
            }
    }
}

/// Passes messages between members. Whether a message is lost is left to whoever uses it.
pub struct UnreliableRouter<D, HK: NetworkHook<D>> {
    peers: VecSet<NodeIndex>,
    peer_list: Vec<NodeIndex>,
    hook_list: Vec<HK>,
    phantom: PhantomData<D>,
}

impl<D, HK: NetworkHook<D>> UnreliableRouter<D, HK> {
    /// Who is connected.
    pub closed spec fn connected(&self) -> Set<NodeIndex> {
        self.peers.deep_view()
    }

    /// Who may connect.
    pub closed spec fn known(&self) -> Seq<NodeIndex> {
        self.peer_list@
    }

    /// The hooks, in order.
    pub closed spec fn hooks(&self) -> Seq<HK> {
        self.hook_list@
    }

    pub fn new(peer_list: Vec<NodeIndex>) -> (result: Self)
        ensures
            result.known() == peer_list@,
            result.connected() == Set::<NodeIndex>::empty(),
            result.hooks() == Seq::<HK>::empty(),
    {
        UnreliableRouter {
            peers: VecSet::new(),
            peer_list,
            hook_list: Vec::new(),
            phantom: PhantomData,
        }
    }

    pub fn add_hook(&mut self, hook: HK)
        ensures
            final(self).known() == old(self).known(),
            final(self).connected() == old(self).connected(),
            final(self).hooks() == old(self).hooks().push(hook),
    {
        self.hook_list.push(hook);
    }

    /// Connects a peer that is in the list and not connected yet.
    pub fn connect_peer(&mut self, peer: NodeIndex) -> (network: Network)
        requires
            old(self).known().contains(peer),
            !old(self).connected().contains(peer),
        ensures
            final(self).known() == old(self).known(),
            final(self).connected() == old(self).connected().insert(peer),
            final(self).hooks() == old(self).hooks(),
            network.everyone() == old(self).known(),
            network.owner() == peer,
    {
        let _ = self.peers.insert(peer);
        let mut everyone: Vec<NodeIndex> = Vec::new();
        let n: usize = self.peer_list.len();
        for i in 0..n
            invariant
                n == self.peer_list@.len(),
                everyone@ == self.peer_list@.take(i as int),
        {
            everyone.push(self.peer_list[i]);
            proof {
                assert(everyone@ =~= self.peer_list@.take(i + 1));
            }
        }
        proof {
            assert(self.peer_list@.take(n as int) =~= self.peer_list@);
        }
        Network::new(everyone, peer)
    }

    /// A peer has gone.
    pub fn disconnect_peer(&mut self, peer: NodeIndex)
        ensures
            final(self).known() == old(self).known(),
            final(self).connected() == old(self).connected().remove(peer),
            final(self).hooks() == old(self).hooks(),
    {
        let _ = self.peers.remove(&peer);
    }

    /// What becomes of a message: it gets through, with what the hooks make of it, unless it is lost
    /// or the recipient is not connected.
    pub fn route(&mut self, packet: Packet<D>) -> (result: Option<Delivery<D>>)
        ensures
            final(self).known() == old(self).known(),
            final(self).connected() == old(self).connected(),
            match result {
                Some(delivery) => {
                    &&& passes(old(self).connected(), packet)
                    &&& delivery.sender == packet.sender
                    &&& delivery.recipient == packet.recipient
                    &&& hooked(
                        old(self).hooks(),
                        packet.data,
                        packet.sender,
                        packet.recipient,
                        final(self).hooks(),
                        delivery.data,
                    )
                },
                None => !passes(old(self).connected(), packet) && final(self).hooks() == old(self).hooks(),
            },
    {
        let Packet { sender, recipient, data, lost } = packet;
        if lost || !self.peers.contains(&recipient) {
            return None;
        }
        let ghost start = self.hook_list@;
        let ghost sent = data;
        let mut data: D = data;
        let n: usize = self.hook_list.len();
        proof {
            assert(start.take(0) =~= Seq::<HK>::empty());
            assert(self.hook_list@.take(0) =~= Seq::<HK>::empty());
        }
        for i in 0..n
            invariant
                n == start.len(),
                n == self.hook_list@.len(),
                self.peers == old(self).peers,
                self.peer_list == old(self).peer_list,
                hooked(
                    start.take(i as int),
                    sent,
                    sender,
                    recipient,
                    self.hook_list@.take(i as int),
                    data,
                ),
                forall|j: int| i <= j < n ==> #[trigger] self.hook_list@[j] == start[j],
        {
            let ghost before = self.hook_list@;
            let ghost middle = data;
            self.hook_list[i].update_state(&mut data, sender, recipient);
            proof {
                let after = self.hook_list@;
                assert(start.take(i + 1).drop_last() =~= start.take(i as int));
                assert(after.take(i + 1).drop_last() =~= before.take(i as int));
                assert(HK::updates(
                    start.take(i + 1).last(),
                    middle,
                    sender,
                    recipient,
                    after.take(i + 1).last(),
                    data,
                ));
            }
        }
        proof {
            assert(start.take(n as int) =~= start);
            assert(self.hook_list@.take(n as int) =~= self.hook_list@);
        }
        Some(Delivery { recipient, data, sender })
    }

    /// Some peers have gone, and messages have come in: those that get through, in order.
    pub fn process(&mut self, disconnected: &Vec<NodeIndex>, packets: Vec<Packet<D>>) -> (deliveries:
        Vec<Delivery<D>>)
        ensures
            final(self).known() == old(self).known(),
            forall|peer: NodeIndex| #[trigger]
                final(self).connected().contains(peer) <==> old(self).connected().contains(peer)
                    && !disconnected@.contains(peer),
            delivered(
                final(self).connected(),
                old(self).hooks(),
                packets@,
                final(self).hooks(),
                deliveries@,
            ),
    {
        let n: usize = disconnected.len();
        for i in 0..n
            invariant
                n == disconnected@.len(),
                self.known() == old(self).known(),
                self.hooks() == old(self).hooks(),
                forall|peer: NodeIndex| #[trigger]
                    self.connected().contains(peer) <==> old(self).connected().contains(peer)
                        && !disconnected@.take(i as int).contains(peer),
        {
            self.disconnect_peer(disconnected[i]);
            proof {
                let done = disconnected@.take(i as int);
                let more = disconnected@.take(i + 1);
                assert(more =~= done.push(disconnected@[i as int]));
                assert forall|peer: NodeIndex| #[trigger] more.contains(peer) <==> done.contains(
                    peer,
                ) || peer == disconnected@[i as int] by {
                    if done.contains(peer) {
                        let j = done.index_of(peer);
                        assert(more[j] == peer);
                    }
                    if peer == disconnected@[i as int] {
                        assert(more[i as int] == peer);
                    }
                    if more.contains(peer) && peer != disconnected@[i as int] {
                        let j = more.index_of(peer);
                        assert(done[j] == peer);
                    }
                }
            }
        }
        proof {
            assert(disconnected@.take(n as int) =~= disconnected@);
        }
        let ghost connected = self.connected();
        let ghost start = self.hooks();
        let ghost all = packets@;
        let mut rest: Vec<Packet<D>> = packets;
        let mut deliveries: Vec<Delivery<D>> = Vec::new();
        let ghost mut done: int = 0;
        proof {
            assert(all.take(0) =~= Seq::<Packet<D>>::empty());
            assert(rest@ =~= all.skip(0));
        }
        while rest.len() > 0
            invariant
                0 <= done <= all.len(),
                rest@ == all.skip(done),
                self.known() == old(self).known(),
                self.connected() == connected,
                delivered(connected, start, all.take(done), self.hooks(), deliveries@),
            decreases rest@.len(),
        {
            let ghost middle = self.hooks();
            let ghost before = deliveries@;
            let ghost waiting = rest@;
            let packet: Packet<D> = rest.remove(0);
            let ghost next = packet;
            if let Some(delivery) = self.route(packet) {
                deliveries.push(delivery);
                proof {
                    assert(deliveries@.drop_last() =~= before);
                }
            }
            proof {
                assert(waiting[0] == all[done]);
                assert(all.take(done + 1).drop_last() =~= all.take(done));
                assert(all.take(done + 1).last() == next);
                assert(one_delivered(
                    connected,
                    middle,
                    before,
                    all.take(done + 1).last(),
                    self.hooks(),
                    deliveries@,
                ));
                assert(rest@ =~= all.skip(done + 1));
                done = done + 1;
            }
        }
        proof {
            assert(all.take(done) =~= all);
        }
        deliveries
    }

    /// Whether nobody is connected any more.
    pub fn is_done(&self) -> (result: bool)
        ensures
            result == (self.connected() == Set::<NodeIndex>::empty()),
    {
        let n: usize = self.peers.len();
        proof {
            if n == 0 {
                assert(self.connected() =~= Set::<NodeIndex>::empty());
            }
        }
        n == 0
    }
}

/// A router with all the members of a committee connected, and their places in the network.
pub fn configure_network<D, HK: NetworkHook<D>>(n_members: NodeCount) -> (result: (
    UnreliableRouter<D, HK>,
    Vec<Network>,
))
    ensures
        result.0.known() == Seq::new(n_members.0 as nat, |i: int| NodeIndex(i as usize)),
        forall|node: NodeIndex| #[trigger]
            result.0.connected().contains(node) <==> node.0 < n_members.0,
        result.0.hooks() == Seq::<HK>::empty(),
        result.1@.len() == n_members.0,
        forall|i: int|
            0 <= i < result.1@.len() ==> (#[trigger] result.1@[i]).owner() == NodeIndex(i as usize)
                && result.1@[i].everyone() == result.0.known(),
{
    let n: usize = n_members.0;
    let ghost members = Seq::new(n as nat, |i: int| NodeIndex(i as usize));
    let mut peer_list: Vec<NodeIndex> = Vec::new();
    for i in 0..n
        invariant
            members == Seq::new(n as nat, |i: int| NodeIndex(i as usize)),
            peer_list@ == members.take(i as int),
    {
        peer_list.push(NodeIndex(i));
        proof {
            assert(peer_list@ =~= members.take(i + 1));
        }
    }
    proof {
        assert(members.take(n as int) =~= members);
    }
    let mut router: UnreliableRouter<D, HK> = UnreliableRouter::new(peer_list);
    let mut networks: Vec<Network> = Vec::new();
    for i in 0..n
        invariant
            members == Seq::new(n as nat, |i: int| NodeIndex(i as usize)),
            router.known() == members,
            router.hooks() == Seq::<HK>::empty(),
            forall|node: NodeIndex| #[trigger]
                router.connected().contains(node) <==> node.0 < i,
            networks@.len() == i,
            forall|j: int|
                0 <= j < i ==> (#[trigger] networks@[j]).owner() == NodeIndex(j as usize)
                    && networks@[j].everyone() == members,
    {
        proof {
            assert(members[i as int] == NodeIndex(i));
        }
        networks.push(router.connect_peer(NodeIndex(i)));
    }
    (router, networks)
}

/// The messages that get through, as they were sent.
pub open spec fn passing<D>(connected: Set<NodeIndex>, packets: Seq<Packet<D>>) -> Seq<Delivery<D>>
    decreases packets.len(),
{
    if packets.len() == 0 {
        seq![]
    } else {
        let before = passing(connected, packets.drop_last());
        let packet = packets.last();
        if passes(connected, packet) {
            before.push(
                Delivery { recipient: packet.recipient, data: packet.data, sender: packet.sender },
            )
        } else {
            before
        }
    }
}

/// Without hooks, exactly the messages that are not lost and whose recipients are connected get
/// through, in order and unchanged.
pub proof fn law_unchanged_without_hooks<D, HK: NetworkHook<D>>(
    connected: Set<NodeIndex>,
    packets: Seq<Packet<D>>,
    after: Seq<HK>,
    deliveries: Seq<Delivery<D>>,
)
    requires
        delivered(connected, Seq::<HK>::empty(), packets, after, deliveries),
    ensures
        deliveries == passing(connected, packets),
        after == Seq::<HK>::empty(),
    decreases packets.len(),
{
    let none = Seq::<HK>::empty();
    if packets.len() == 0 {
        assert(deliveries =~= passing(connected, packets));
    } else {
        let (middle, before) = choose|middle: Seq<HK>, before: Seq<Delivery<D>>|
            {
                &&& delivered(connected, none, packets.drop_last(), middle, before)
                &&& #[trigger] one_delivered(
                    connected,
                    middle,
                    before,
                    packets.last(),
                    after,
                    deliveries,
                )
            };
        law_unchanged_without_hooks(connected, packets.drop_last(), middle, before);
        if passes(connected, packets.last()) {
            assert(after =~= none);
            assert(deliveries =~= before.push(deliveries.last()));
        }
    }
}

/// Whatever the hooks do to the contents, exactly the messages that are not lost and whose recipients
/// are connected are delivered, in the order in which they came, each from its sender to its
/// recipient.
pub proof fn law_deliveries_in_order<D, HK: NetworkHook<D>>(
    connected: Set<NodeIndex>,
    hooks: Seq<HK>,
    packets: Seq<Packet<D>>,
    after: Seq<HK>,
    deliveries: Seq<Delivery<D>>,
)
    requires
        delivered(connected, hooks, packets, after, deliveries),
    ensures
        ({
            let through = packets.filter(
                |packet: Packet<D>| !packet.lost && connected.contains(packet.recipient),
            );
            &&& deliveries.len() == through.len()
            &&& forall|k: int|
                0 <= k < deliveries.len() ==> {
                    &&& (#[trigger] deliveries[k]).sender == through[k].sender
                    &&& deliveries[k].recipient == through[k].recipient
                }
            &&& after.len() == hooks.len()
        }),
    decreases packets.len(),
{
    reveal(Seq::filter);
    let gets_through = |packet: Packet<D>| !packet.lost && connected.contains(packet.recipient);
    if packets.len() > 0 {
        let (middle, before) = choose|middle: Seq<HK>, before: Seq<Delivery<D>>|
            {
                &&& delivered(connected, hooks, packets.drop_last(), middle, before)
                &&& #[trigger] one_delivered(
                    connected,
                    middle,
                    before,
                    packets.last(),
                    after,
                    deliveries,
                )
            };
        law_deliveries_in_order(connected, hooks, packets.drop_last(), middle, before);
        let earlier = packets.drop_last().filter(gets_through);
        let through = packets.filter(gets_through);
        if gets_through(packets.last()) {
            assert(through == earlier.push(packets.last()));
            assert forall|k: int| 0 <= k < deliveries.len() implies (
            #[trigger] deliveries[k]).sender == through[k].sender && deliveries[k].recipient
                == through[k].recipient by {
                if k < before.len() {
                    assert(deliveries.drop_last()[k] == before[k]);
                }
            }
        }
    }
}

} // verus!
