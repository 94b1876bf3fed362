//! Channel registry and demultiplexing: each decoded packet is routed to
//! the first receiver registered under its channel id; the others are left
//! untouched, and a packet with an unknown channel id is dropped.

use vstd::prelude::*;

use crate::channelreceiver::{
    model_missing, read_output, read_step, receive_step, ChannelReceiver,
};
use crate::packet::Packet;

verus! {

/// One registered channel: its numeric id and its receiver.
struct RegistryEntry {
    id: u32,
    receiver: ChannelReceiver,
}

/// Position of the first id equal to `channel`, or -1 when none matches.
pub open spec fn first_match(ids: Seq<u32>, channel: u32) -> int
    decreases ids.len(),
{
    if ids.len() == 0 {
        -1
    } else if ids[0] == channel {
        0
    } else if first_match(ids.drop_first(), channel) == -1 {
        -1
    } else {
        first_match(ids.drop_first(), channel) + 1
    }
}

/// A match at position `k`, with no earlier match, is the first match.
proof fn lemma_first_match_at(ids: Seq<u32>, channel: u32, k: int)
    requires
        0 <= k < ids.len(),
        ids[k] == channel,
        forall|j: int| 0 <= j < k ==> ids[j] != channel,
    ensures
        first_match(ids, channel) == k,
    decreases k,
{
    if k > 0 {
        lemma_first_match_at(ids.drop_first(), channel, k - 1);
    }
}

/// With no match anywhere there is no first match.
proof fn lemma_first_match_none(ids: Seq<u32>, channel: u32)
    requires
        forall|j: int| 0 <= j < ids.len() ==> ids[j] != channel,
    ensures
        first_match(ids, channel) == -1,
    decreases ids.len(),
{
    if ids.len() > 0 {
        lemma_first_match_none(ids.drop_first(), channel);
    }
}

/// Maps channel ids to receivers; the receive loop hands every decoded
/// packet to `deliver`, a consumer drains one channel with `read_at`.
pub struct ChannelRegistry {
    entries: Vec<RegistryEntry>,
}

impl ChannelRegistry {
    /// Every held receiver is well formed.
    pub closed spec fn wf(&self) -> bool {
        forall|i: int| 0 <= i < self.entries@.len() ==> self.entries@[i].receiver.wf()
    }

    /// The registered ids, in registration order.
    pub closed spec fn spec_ids(&self) -> Seq<u32> {
        Seq::new(self.entries@.len(), |i: int| self.entries@[i].id)
    }

    /// The receivers, in registration order.
    pub closed spec fn spec_receivers(&self) -> Seq<ChannelReceiver> {
        Seq::new(self.entries@.len(), |i: int| self.entries@[i].receiver)
    }

    /// An empty registry.
    pub fn new() -> (r: ChannelRegistry)
        ensures
            r.wf(),
            r.spec_ids() == Seq::<u32>::empty(),
            r.spec_receivers() == Seq::<ChannelReceiver>::empty(),
    {
        let r = ChannelRegistry { entries: Vec::new() };
        proof {
            assert(r.spec_ids() =~= Seq::<u32>::empty());
            assert(r.spec_receivers() =~= Seq::<ChannelReceiver>::empty());
        }
        r
    }

    /// Registers one channel: a fresh receiver under the given id.
    pub fn register(&mut self, id: u32, name: &str)
        requires
            old(self).wf(),
        ensures
            final(self).wf(),
            final(self).spec_ids() == old(self).spec_ids().push(id),
            final(self).spec_receivers().len() == old(self).spec_receivers().len() + 1,
            forall|j: int|
                0 <= j < old(self).spec_receivers().len() ==> final(self).spec_receivers()[j]
                    == old(self).spec_receivers()[j],
            ({
                let r = final(self).spec_receivers().last();
                &&& !r@.started
                &&& r@.queue.len() == 0
                &&& model_missing(r@) == Seq::<u32>::empty()
                &&& r.spec_name() == name@
            }),
    {
        let receiver = ChannelReceiver::new(name);
        self.entries.push(RegistryEntry { id, receiver });
        proof {
            assert(final(self).spec_ids() =~= old(self).spec_ids().push(id));
        }
    }

    /// How many channels are registered.
    pub fn len(&self) -> (n: usize)
        ensures
            n == self.spec_receivers().len(),
    {
        self.entries.len()
    }

    /// The id registered at a position.
    pub fn id_at(&self, pos: usize) -> (id: u32)
        requires
            pos < self.spec_ids().len(),
        ensures
            id == self.spec_ids()[pos as int],
    {
        self.entries[pos].id
    }

    /// The receiver registered at a position.
    pub fn receiver_at(&self, pos: usize) -> (r: &ChannelReceiver)
        requires
            self.wf(),
            pos < self.spec_receivers().len(),
        ensures
            *r == self.spec_receivers()[pos as int],
            r.wf(),
    {
        &self.entries[pos].receiver
    }

    /// Routes one decoded packet: the first receiver registered under the
    /// packet's channel id receives it, every other receiver is untouched;
    /// a packet whose id matches no receiver is dropped silently.
    pub fn deliver(&mut self, packet: &Packet)
        requires
            old(self).wf(),
        ensures
            final(self).wf(),
            final(self).spec_ids() == old(self).spec_ids(),
            final(self).spec_receivers().len() == old(self).spec_receivers().len(),
            ({
                let k = first_match(old(self).spec_ids(), packet@.channel);
                &&& (k == -1 ==> final(self).spec_receivers() == old(self).spec_receivers())
                &&& (k >= 0 ==> {
                    &&& final(self).spec_receivers()[k]@ == receive_step(
                        old(self).spec_receivers()[k]@,
                        packet@.index,
                        packet@.data,
                    )
                    &&& final(self).spec_receivers()[k].spec_name() == old(
                        self).spec_receivers()[k].spec_name()
                    &&& forall|j: int|
                        0 <= j < old(self).spec_receivers().len() && j != k ==> final(
                            self).spec_receivers()[j] == old(self).spec_receivers()[j]
                })
            }),
    {
        let channel = packet.get_channel();
        let n = self.entries.len();
        let mut i: usize = 0;
        while i < n
            invariant
                old(self).wf(),
                *self == *old(self),
                n == self.entries@.len(),
                i <= n,
                forall|j: int| 0 <= j < i ==> self.spec_ids()[j] != channel,
                channel == packet@.channel,
            decreases n - i,
        {
            if self.entries[i].id == channel {
                proof {
                    lemma_first_match_at(self.spec_ids(), channel, i as int);
                }
                self.entries[i].receiver.receive_packet(packet);
                proof {
                    assert(final(self).spec_ids() =~= old(self).spec_ids());
                    assert forall|j: int|
                        0 <= j < old(self).spec_receivers().len() && j != i as int implies final(
                        self).spec_receivers()[j] == old(self).spec_receivers()[j] by {}
                }
                return;
            }
            i = i + 1;
        }
        proof {
            lemma_first_match_none(self.spec_ids(), channel);
        }
    }

    /// Reads the next segment from the receiver at the given position, as
    /// `read_step` and `read_output` say: the oldest pending segment, or
    /// silence; the other receivers are untouched.
    pub fn read_at(&mut self, pos: usize) -> (out: Vec<i16>)
        requires
            old(self).wf(),
            pos < old(self).spec_receivers().len(),
        ensures
            final(self).wf(),
            final(self).spec_ids() == old(self).spec_ids(),
            final(self).spec_receivers().len() == old(self).spec_receivers().len(),
            out@ == read_output(old(self).spec_receivers()[pos as int]@),
            final(self).spec_receivers()[pos as int]@ == read_step(
                old(self).spec_receivers()[pos as int]@,
            ),
            forall|j: int|
                0 <= j < old(self).spec_receivers().len() && j != pos as int ==> final(
                    self).spec_receivers()[j] == old(self).spec_receivers()[j],
    {
        let out = self.entries[pos].receiver.read();
        proof {
            assert(final(self).spec_ids() =~= old(self).spec_ids());
        }
        out
    }
}

} // verus!
