//! The messages that pass between the server and the handle of one
//! connection, and what can be told from a run of them.

use crate::packet::{spec_views, Packet, PacketType, PacketView};
use vstd::prelude::*;

verus! {

/// What the server and the handle of a connection tell each other.
#[derive(Clone, Debug, PartialEq, Eq)]
pub enum ServerToHandleMessage {
    /// The packet is to be sent to the client.
    SendPacket(Packet),
    /// The packet has arrived from the client.
    NotifyPacketReceived(Packet),
}

/// A message as a mathematical value.
pub enum MessageView {
    SendPacket(PacketView),
    NotifyPacketReceived(PacketView),
}

impl View for ServerToHandleMessage {
    type V = MessageView;

    open spec fn view(&self) -> MessageView {
        match *self {
            ServerToHandleMessage::SendPacket(p) => MessageView::SendPacket(p@),
            ServerToHandleMessage::NotifyPacketReceived(p) => MessageView::NotifyPacketReceived(p@),
        }
    }
}

/// The messages of a vector as mathematical values.
pub open spec fn spec_message_views(messages: Seq<ServerToHandleMessage>) -> Seq<MessageView> {
    Seq::new(messages.len(), |i: int| messages[i]@)
}

/// The packets that a message asks to send: one, or none.
pub open spec fn spec_sent(message: MessageView) -> Seq<PacketView> {
    match message {
        MessageView::SendPacket(p) => seq![p],
        MessageView::NotifyPacketReceived(_) => Seq::empty(),
    }
}

/// Whether reading stops once `count` packets are there.
pub open spec fn spec_cap_reached(cap: Option<usize>, count: nat) -> bool {
    match cap {
        Some(c) => count >= c,
        None => false,
    }
}

/// What reading a queue of messages brings when `have` packets are there
/// already: the packets that are to be sent, in their order, and the number
/// of messages taken off the queue.
///
/// Messages are taken one by one. After each, reading stops where the cap is
/// reached; otherwise it goes on until the queue is empty.
pub open spec fn spec_received(queue: Seq<MessageView>, cap: Option<usize>, have: nat) -> (
    Seq<PacketView>,
    nat,
)
    decreases queue.len(),
{
    if queue.len() == 0 {
        (Seq::empty(), 0)
    } else {
        let got = spec_sent(queue[0]);
        if spec_cap_reached(cap, have + got.len()) {
            (got, 1)
        } else {
            let (later, taken) = spec_received(queue.drop_first(), cap, have + got.len());
            (got + later, taken + 1)
        }
    }
}

/// Some packet among `packets` is of kind `ty`.
pub open spec fn spec_contains_type(packets: Seq<PacketView>, ty: PacketType) -> bool {
    exists|i: int| 0 <= i < packets.len() && packets[i].ty() == ty
}

/// Collects the packets that a run of messages asks to send, up to a cap.
pub struct PacketCollector {
    cap: Option<usize>,
    packets: Vec<Packet>,
}

impl PacketCollector {
    /// The cap that the collector was made with.
    pub closed spec fn cap(&self) -> Option<usize> {
        self.cap
    }

    /// The packets collected so far.
    pub closed spec fn collected(&self) -> Seq<PacketView> {
        spec_views(self.packets@)
    }

    /// A collector that holds nothing yet. With `None` for a cap it never
    /// asks to stop.
    pub fn new(cap: Option<usize>) -> (collector: PacketCollector)
        ensures
            collector.cap() == cap,
            collector.collected() == Seq::<PacketView>::empty(),
    {
        let collector = PacketCollector { cap, packets: Vec::new() };
        assert(collector.collected() =~= Seq::empty());
        collector
    }

    /// Takes one message in. Says whether reading goes on: it stops where
    /// the cap is reached.
    pub fn offer(&mut self, message: ServerToHandleMessage) -> (more: bool)
        ensures
            final(self).cap() == old(self).cap(),
            final(self).collected() == old(self).collected() + spec_sent(message@),
            more == !spec_cap_reached(old(self).cap(), final(self).collected().len()),
    {
        let ghost held = self.packets@;
        match message {
            ServerToHandleMessage::SendPacket(packet) => {
                self.packets.push(packet);
                assert(spec_views(held.push(packet)) =~= spec_views(held) + seq![packet@]);
            },
            ServerToHandleMessage::NotifyPacketReceived(_) => {
                assert(spec_views(held) + Seq::<PacketView>::empty() =~= spec_views(held));
            },
        }
        match self.cap {
            Some(c) => self.packets.len() < c,
            None => true,
        }
    }

    /// Hands out what was collected.
    pub fn finish(self) -> (packets: Vec<Packet>)
        ensures
            spec_views(packets@) == self.collected(),
    {
        self.packets
    }
}

/// Retrieves up to `cap` packets from the front of a queue of messages. If
/// `cap` is `None`, all messages are read.
///
/// Messages are taken off the queue until enough packets have been read.
pub fn received_packets(queue: &mut Vec<ServerToHandleMessage>, cap: Option<usize>) -> (packets:
    Vec<Packet>)
    ensures
        spec_views(packets@) == spec_received(spec_message_views(old(queue)@), cap, 0).0,
        spec_message_views(final(queue)@) == spec_message_views(old(queue)@).skip(
            spec_received(spec_message_views(old(queue)@), cap, 0).1 as int,
        ),
{
    let ghost all = spec_message_views(queue@);
    let ghost mut taken: nat = 0;
    let mut collector = PacketCollector::new(cap);
    assert(all.skip(0) =~= all);
    while queue.len() > 0
        invariant_except_break
            collector.cap() == cap,
            taken <= all.len(),
            spec_message_views(queue@) == all.skip(taken as int),
            spec_received(all, cap, 0) == (
                collector.collected() + spec_received(
                    all.skip(taken as int),
                    cap,
                    collector.collected().len(),
                ).0,
                taken + spec_received(all.skip(taken as int), cap, collector.collected().len()).1,
            ),
        ensures
            spec_message_views(queue@) == all.skip(spec_received(all, cap, 0).1 as int),
            collector.collected() == spec_received(all, cap, 0).0,
        decreases queue.len(),
    {
        let ghost rest = all.skip(taken as int);
        let ghost before = collector.collected();
        let message = queue.remove(0);
        assert(spec_message_views(queue@) =~= rest.drop_first());
        assert(rest[0] == message@);
        assert(rest.drop_first() =~= all.skip((taken + 1) as int));
        let more = collector.offer(message);
        proof {
            let got = spec_sent(rest[0]);
            let later = spec_received(rest.drop_first(), cap, before.len() + got.len()).0;
            assert(before + (got + later) =~= (before + got) + later);
            assert(before + got + Seq::<PacketView>::empty() =~= before + got);
            taken = taken + 1;
        }
        if !more {
            break ;
        }
    }
    proof {
        if queue.len() == 0 {
            assert(collector.collected() + Seq::<PacketView>::empty() =~= collector.collected());
        }
    }
    collector.finish()
}

/// Whether some packet among `packets` is of kind `ty`.
pub fn contains_type(packets: &Vec<Packet>, ty: PacketType) -> (found: bool)
    ensures
        found == spec_contains_type(spec_views(packets@), ty),
{
    let mut i: usize = 0;
    while i < packets.len()
        invariant
            i <= packets.len(),
            forall|j: int| 0 <= j < i ==> spec_views(packets@)[j].ty() != ty,
        decreases packets.len() - i,
    {
        if packets[i].ty() == ty {
            assert(spec_views(packets@)[i as int].ty() == ty);
            return true;
        }
        i = i + 1;
    }
    false
}

/// Whether `message` asks to send a packet of kind `ty`.
pub fn sends_type(message: &ServerToHandleMessage, ty: PacketType) -> (wanted: bool)
    ensures
        wanted == spec_contains_type(spec_sent(message@), ty),
{
    match message {
        ServerToHandleMessage::SendPacket(packet) => {
            let same = packet.ty() == ty;
            proof {
                if same {
                    assert(spec_sent(message@)[0].ty() == ty);
                }
            }
            same
        },
        ServerToHandleMessage::NotifyPacketReceived(_) => false,
    }
}

} // verus!
