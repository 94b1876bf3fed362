//! Send-side channel state: the name, the id assigned at build time, and
//! the per-channel send sequence counter. The counter is consumed once per
//! packet built, whether or not the transmission that follows succeeds, so
//! the logical sequence space stays monotonic across failed sends.

use vstd::prelude::*;

use crate::packet::{Packet, PacketModel};

verus! {

/// A publisher's handle for one channel: every packet it builds carries
/// the channel's id and the next sequence index.
pub struct Channel {
    name: String,
    id: u32,
    send_index: u32,
}

impl Channel {
    /// The channel's name.
    pub closed spec fn spec_name(&self) -> Seq<char> {
        self.name@
    }

    /// The numeric id assigned at build time, immutable afterwards.
    pub closed spec fn spec_id(&self) -> u32 {
        self.id
    }

    /// The sequence index the next packet will carry.
    pub closed spec fn spec_send_index(&self) -> u32 {
        self.send_index
    }

    /// A send handle with the given name and id; its first packet will
    /// carry sequence index zero.
    pub fn new(name: String, id: u32) -> (c: Channel)
        ensures
            c.spec_name() == name@,
            c.spec_id() == id,
            c.spec_send_index() == 0,
    {
        Channel { name, id, send_index: 0 }
    }

    /// Builds the packet for the next send: it carries this channel's id
    /// and the current sequence index, which is consumed here once and
    /// for all — a send that fails later still leaves a permanent,
    /// expected gap at the receivers.
    pub fn next_packet(&mut self, data: Vec<i16>) -> (p: Packet)
        requires
            old(self).spec_send_index() < u32::MAX,
        ensures
            final(self).spec_name() == old(self).spec_name(),
            final(self).spec_id() == old(self).spec_id(),
            final(self).spec_send_index() == old(self).spec_send_index() + 1,
            p.wf(),
            p is Constructed,
            p@ == (PacketModel {
                channel: old(self).spec_id(),
                index: old(self).spec_send_index(),
                data: data@,
            }),
    {
        let p = Packet::new(self.id, self.send_index, data);
        self.send_index = self.send_index + 1;
        p
    }

    /// The channel's name.
    pub fn name(&self) -> (n: &String)
        ensures
            n@ == self.spec_name(),
    {
        &self.name
    }

    /// The numeric id assigned at build time.
    pub fn id(&self) -> (i: u32)
        ensures
            i == self.spec_id(),
    {
        self.id
    }

    /// The sequence index the next packet will carry.
    pub fn send_index(&self) -> (x: u32)
        ensures
            x == self.spec_send_index(),
    {
        self.send_index
    }
}

} // verus!
