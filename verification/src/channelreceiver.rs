//! The per-channel jitter buffer: receives decoded packets that may be
//! lost, duplicated or reordered, keeps a bounded ring of pending sample
//! segments, and serves them to a consumer in sequence order, substituting
//! silence for segments that never arrived.

use vstd::prelude::*;

use crate::channel::Channel;
use crate::demux::ChannelRegistry;
use crate::packet::Packet;

verus! {

/// Build-time configuration: an optional transport address and the list
/// of channel names; ids are assigned by list position, starting at zero.
pub struct ChannelReceiverBuildConfig {
    addr: Option<String>,
    names: Vec<String>,
}

impl ChannelReceiverBuildConfig {
    /// The configured transport address, if any.
    pub closed spec fn spec_addr(&self) -> Option<String> {
        self.addr
    }

    /// The configured channel names, in id order.
    pub closed spec fn spec_names(&self) -> Seq<String> {
        self.names@
    }

    /// Configuration from an optional address and the channel names.
    pub fn new(addr: Option<String>, names: Vec<String>) -> (c: ChannelReceiverBuildConfig)
        ensures
            c.spec_addr() == addr,
            c.spec_names() == names@,
    {
        ChannelReceiverBuildConfig { addr, names }
    }

    /// The configured transport address, if any.
    pub fn addr(&self) -> (a: &Option<String>)
        ensures
            *a == self.spec_addr(),
    {
        &self.addr
    }

    /// The configured channel names.
    pub fn names(&self) -> (n: &Vec<String>)
        ensures
            n@ == self.spec_names(),
    {
        &self.names
    }
}

/// Capacity of the ring of pending segments.
pub const BUFFER_SEGMENTS: usize = 10;

/// Ghost model of a receiver: whether a first packet has arrived, the last
/// received in-order sequence index, the pending segments oldest first
/// (`None` marks one that never arrived), and the expected segment length.
#[verifier::ext_equal]
pub ghost struct ReceiverModel {
    pub started: bool,
    pub lidx: u32,
    pub queue: Seq<Option<Seq<i16>>>,
    pub seg_len: nat,
}

/// The sample sequence held by an optional segment, if any.
pub open spec fn opt_view(o: Option<Vec<i16>>) -> Option<Seq<i16>> {
    match o {
        Some(v) => Some(v@),
        None => None,
    }
}

/// Appends a pending segment, evicting the oldest when the ring is full.
pub open spec fn push_bounded(q: Seq<Option<Seq<i16>>>, item: Option<Seq<i16>>) -> Seq<
    Option<Seq<i16>>,
> {
    if q.len() < BUFFER_SEGMENTS {
        q.push(item)
    } else {
        q.drop_first().push(item)
    }
}

/// One step of the window: the next sequence index is accounted for, with
/// either its samples or a missing mark.
pub open spec fn advance_one(s: ReceiverModel, item: Option<Seq<i16>>) -> ReceiverModel {
    ReceiverModel {
        started: true,
        lidx: (s.lidx + 1) as u32,
        queue: push_bounded(s.queue, item),
        seg_len: match item {
            Some(d) => d.len(),
            None => s.seg_len,
        },
    }
}

/// `n` missing steps in a row.
pub open spec fn advance_missing(s: ReceiverModel, n: nat) -> ReceiverModel
    decreases n,
{
    if n == 0 {
        s
    } else {
        advance_missing(advance_one(s, None), (n - 1) as nat)
    }
}

/// The state right after (re)starting the window from one packet.
pub open spec fn fresh_model(idx: u32, data: Seq<i16>) -> ReceiverModel {
    ReceiverModel { started: true, lidx: idx, queue: seq![Some(data)], seg_len: data.len() }
}

/// What one delivered packet does to the receiver state: start the window,
/// extend it in order, record the skipped indices as missing, ignore a
/// stale or duplicate index, or resynchronize after a gap too large for
/// the ring.
pub open spec fn receive_step(s: ReceiverModel, idx: u32, data: Seq<i16>) -> ReceiverModel {
    if !s.started {
        fresh_model(idx, data)
    } else if idx <= s.lidx {
        s
    } else if idx - s.lidx <= BUFFER_SEGMENTS {
        advance_one(advance_missing(s, (idx - s.lidx - 1) as nat), Some(data))
    } else {
        fresh_model(idx, data)
    }
}

/// The sequence index of the oldest pending segment.
pub open spec fn model_front(s: ReceiverModel) -> int {
    s.lidx - s.queue.len() + 1
}

/// The sequence numbers of the missing segments in a window whose oldest
/// entry has sequence number `front`, in ascending order.
pub open spec fn missing_from(q: Seq<Option<Seq<i16>>>, front: int) -> Seq<u32>
    decreases q.len(),
{
    if q.len() == 0 {
        Seq::empty()
    } else if q[0] is None {
        seq![front as u32] + missing_from(q.drop_first(), front + 1)
    } else {
        missing_from(q.drop_first(), front + 1)
    }
}

/// The sequence numbers of the segments still missing from the window.
pub open spec fn model_missing(s: ReceiverModel) -> Seq<u32> {
    missing_from(s.queue, model_front(s))
}

/// All-zero samples of the given length.
pub open spec fn zero_samples(n: nat) -> Seq<i16> {
    Seq::new(n, |i: int| 0i16)
}

/// What one read yields: the oldest pending segment, or silence of the
/// expected length when that segment is missing or nothing is pending.
pub open spec fn read_output(s: ReceiverModel) -> Seq<i16> {
    if s.queue.len() == 0 {
        zero_samples(s.seg_len)
    } else {
        match s.queue[0] {
            Some(d) => d,
            None => zero_samples(s.seg_len),
        }
    }
}

/// What one read does to the state: the oldest pending segment is consumed.
pub open spec fn read_step(s: ReceiverModel) -> ReceiverModel {
    if s.queue.len() == 0 {
        s
    } else {
        ReceiverModel { queue: s.queue.drop_first(), ..s }
    }
}

/// Ring slot holding the pending segment `j` places after slot `r`.
spec fn ring_slot(r: int, j: int) -> int {
    if r + j < BUFFER_SEGMENTS {
        r + j
    } else {
        r + j - BUFFER_SEGMENTS
    }
}

/// One subscribed channel's receive side: a bounded ring of reconstructed
/// sample segments, read and write cursors, the last received in-order
/// sequence index, and the set of sequence numbers still missing.
pub struct ChannelReceiver {
    name: String,
    segments: Vec<Option<Vec<i16>>>,
    ridx: usize,
    widx: usize,
    count: usize,
    lidx: u32,
    started: bool,
    missed: Vec<u32>,
    seg_len: usize,
}

impl View for ChannelReceiver {
    type V = ReceiverModel;

    closed spec fn view(&self) -> ReceiverModel {
        ReceiverModel {
            started: self.started,
            lidx: self.lidx,
            queue: Seq::new(
                self.count as nat,
                |j: int| opt_view(self.segments@[ring_slot(self.ridx as int, j)]),
            ),
            seg_len: self.seg_len as nat,
        }
    }
}

/// Unfolds one step of `missing_from`.
proof fn lemma_missing_unfold(q: Seq<Option<Seq<i16>>>, front: int)
    requires
        q.len() > 0,
    ensures
        q[0] is None ==> missing_from(q, front) == seq![front as u32] + missing_from(
            q.drop_first(),
            front + 1,
        ),
        q[0] is Some ==> missing_from(q, front) == missing_from(q.drop_first(), front + 1),
{
}

/// Appending a present segment adds nothing to the missing set.
proof fn lemma_missing_push_some(q: Seq<Option<Seq<i16>>>, front: int, d: Seq<i16>)
    ensures
        missing_from(q.push(Some(d)), front) == missing_from(q, front),
    decreases q.len(),
{
    let qd = q.push(Some(d));
    lemma_missing_unfold(qd, front);
    if q.len() == 0 {
        assert(qd.drop_first() =~= Seq::<Option<Seq<i16>>>::empty());
        assert(missing_from(qd, front) == missing_from(qd.drop_first(), front + 1));
    } else {
        assert(qd[0] == q[0]);
        assert(qd.drop_first() =~= q.drop_first().push(Some(d)));
        lemma_missing_push_some(q.drop_first(), front + 1, d);
        lemma_missing_unfold(q, front);
    }
}

/// Appending a missing mark appends exactly its sequence number.
proof fn lemma_missing_push_none(q: Seq<Option<Seq<i16>>>, front: int)
    ensures
        missing_from(q.push(None), front) =~= missing_from(q, front).push(
            (front + q.len()) as u32,
        ),
    decreases q.len(),
{
    let qd = q.push(None);
    lemma_missing_unfold(qd, front);
    if q.len() == 0 {
        assert(qd.drop_first() =~= Seq::<Option<Seq<i16>>>::empty());
        assert(qd[0] is None);
        assert(missing_from(qd, front) == seq![front as u32] + missing_from(
            qd.drop_first(),
            front + 1,
        ));
        assert(missing_from(qd, front) =~= missing_from(q, front).push((front + q.len()) as u32));
    } else {
        assert(qd[0] == q[0]);
        assert(qd.drop_first() =~= q.drop_first().push(None));
        lemma_missing_push_none(q.drop_first(), front + 1);
        lemma_missing_unfold(q, front);
        assert((front + 1) + q.drop_first().len() == front + q.len());
        if q[0] is None {
            assert(missing_from(qd, front) == seq![front as u32] + missing_from(
                q.drop_first(),
                front + 1,
            ).push((front + q.len()) as u32));
            assert(missing_from(qd, front) =~= (seq![front as u32] + missing_from(
                q.drop_first(),
                front + 1,
            )).push((front + q.len()) as u32));
        }
    }
}

/// A window of present segments has an empty missing set.
proof fn lemma_missing_all_some(q: Seq<Option<Seq<i16>>>, front: int)
    requires
        forall|j: int| 0 <= j < q.len() ==> q[j] is Some,
    ensures
        missing_from(q, front) == Seq::<u32>::empty(),
    decreases q.len(),
{
    if q.len() > 0 {
        lemma_missing_all_some(q.drop_first(), front + 1);
    }
}

/// All-zero sample vector of the given length.
fn zero_vec(n: usize) -> (v: Vec<i16>)
    ensures
        v@ == zero_samples(n as nat),
{
    let mut v: Vec<i16> = Vec::new();
    let mut i: usize = 0;
    while i < n
        invariant
            i <= n,
            v@.len() == i,
            forall|j: int| 0 <= j < i ==> v@[j] == 0i16,
        decreases n - i,
    {
        v.push(0);
        i = i + 1;
    }
    proof {
        assert(v@ =~= zero_samples(n as nat));
    }
    v
}

/// Copies a sample vector.
fn copy_segment(src: &Vec<i16>) -> (d: Vec<i16>)
    ensures
        d@ == src@,
{
    let mut d: Vec<i16> = Vec::new();
    let mut i: usize = 0;
    while i < src.len()
        invariant
            i <= src.len(),
            d@.len() == i,
            forall|j: int| 0 <= j < i ==> d@[j] == src@[j],
        decreases src.len() - i,
    {
        d.push(src[i]);
        i = i + 1;
    }
    proof {
        assert(d@ =~= src@);
    }
    d
}

impl ChannelReceiver {
    /// Well-formed receiver: the ring has its fixed capacity, the cursors
    /// and count are consistent, and the missing list names exactly the
    /// window's absent segments, oldest first.
    pub closed spec fn wf(&self) -> bool {
        &&& self.segments@.len() == BUFFER_SEGMENTS
        &&& self.ridx < BUFFER_SEGMENTS
        &&& self.count <= BUFFER_SEGMENTS
        &&& self.widx == ring_slot(self.ridx as int, self.count as int)
        &&& (!self.started ==> self.count == 0)
        &&& self.count <= self.lidx + 1
        &&& self.missed@ == model_missing(self@)
    }

    /// The channel name this receiver was registered under.
    pub closed spec fn spec_name(&self) -> Seq<char> {
        self.name@
    }

    /// A fresh receiver: nothing buffered, nothing missing, not started.
    pub fn new(name: &str) -> (r: ChannelReceiver)
        ensures
            r.wf(),
            !r@.started,
            r@.queue.len() == 0,
            r@.lidx == 0,
            r@.seg_len == 0,
            model_missing(r@) == Seq::<u32>::empty(),
            r.spec_name() == name@,
    {
        let mut segments: Vec<Option<Vec<i16>>> = Vec::new();
        let mut i: usize = 0;
        while i < BUFFER_SEGMENTS
            invariant
                i <= BUFFER_SEGMENTS,
                segments@.len() == i,
            decreases BUFFER_SEGMENTS - i,
        {
            segments.push(None);
            i = i + 1;
        }
        let r = ChannelReceiver {
            name: name.to_owned(),
            segments,
            ridx: 0,
            widx: 0,
            count: 0,
            lidx: 0,
            started: false,
            missed: Vec::new(),
            seg_len: 0,
        };
        proof {
            assert(r@.queue =~= Seq::<Option<Seq<i16>>>::empty());
        }
        r
    }

    /// Discards any pending window and restarts buffering from one packet.
    fn start_from(&mut self, idx: u32, data: Vec<i16>)
        requires
            old(self).wf(),
        ensures
            final(self).wf(),
            final(self)@ == fresh_model(idx, data@),
            final(self).spec_name() == old(self).spec_name(),
    {
        self.ridx = 0;
        self.widx = 1;
        self.count = 1;
        self.lidx = idx;
        self.started = true;
        self.missed.clear();
        self.seg_len = data.len();
        self.segments[0] = Some(data);
        proof {
            assert(self@.queue =~= fresh_model(idx, self@.queue[0]->Some_0).queue);
            assert(self@.queue[0] is Some);
            assert(self@ =~= fresh_model(idx, self@.queue[0]->Some_0));
            lemma_missing_all_some(self@.queue, model_front(self@));
        }
    }

    /// Accounts for the next sequence index: stores its samples, or a
    /// missing mark, evicting the oldest pending segment when the ring
    /// is full.
    fn advance_slot(&mut self, item: Option<Vec<i16>>)
        requires
            old(self).wf(),
            old(self)@.started,
            old(self)@.lidx < u32::MAX,
        ensures
            final(self).wf(),
            final(self)@ == advance_one(old(self)@, opt_view(item)),
            final(self).spec_name() == old(self).spec_name(),
    {
        let ghost pre = self@;
        let ghost itemv = opt_view(item);
        let ghost front0 = model_front(pre);
        if self.count == BUFFER_SEGMENTS {
            // the ring is full: the oldest pending segment is dropped
            proof {
                assert(pre.queue[0] == opt_view(self.segments@[self.ridx as int]));
                lemma_missing_unfold(pre.queue, front0);
            }
            if self.segments[self.ridx].is_none() {
                self.missed.remove(0);
            }
            self.segments[self.ridx] = None;
            self.ridx = if self.ridx + 1 == BUFFER_SEGMENTS {
                0
            } else {
                self.ridx + 1
            };
            self.count = self.count - 1;
            proof {
                assert(self@.queue =~= pre.queue.drop_first());
                assert(self.missed@ =~= missing_from(self@.queue, front0 + 1));
            }
        }
        let ghost q1 = self@.queue;
        let ghost front1 = self.lidx - self.count + 1;
        proof {
            assert(self.missed@ == missing_from(q1, front1));
            assert(front1 + q1.len() == self.lidx + 1);
        }
        match &item {
            Some(d) => {
                self.seg_len = d.len();
            },
            None => {
                self.missed.push(self.lidx + 1);
            },
        }
        self.segments[self.widx] = item;
        self.widx = if self.widx + 1 == BUFFER_SEGMENTS {
            0
        } else {
            self.widx + 1
        };
        self.count = self.count + 1;
        self.lidx = self.lidx + 1;
        proof {
            assert(self@.queue =~= q1.push(itemv));
            match itemv {
                Some(d) => {
                    lemma_missing_push_some(q1, front1, d);
                },
                None => {
                    lemma_missing_push_none(q1, front1);
                },
            }
            assert(model_front(self@) == front1);
            assert(self.missed@ =~= missing_from(self@.queue, front1));
            assert(self@ =~= advance_one(pre, itemv));
        }
    }

    /// Delivers one decoded packet to the window, as `receive_step` says:
    /// it may start the window, extend it (recording skipped indices as
    /// missing and evicting the oldest segments on overflow), be ignored
    /// as stale, or force a resynchronization.
    pub fn receive_packet(&mut self, packet: &Packet)
        requires
            old(self).wf(),
        ensures
            final(self).wf(),
            final(self)@ == receive_step(old(self)@, packet@.index, packet@.data),
            final(self).spec_name() == old(self).spec_name(),
    {
        let idx = packet.get_index();
        if !self.started {
            let data = packet.get_data();
            self.start_from(idx, data);
        } else if idx <= self.lidx {
            // stale or duplicate: no state change
        } else if idx - self.lidx <= BUFFER_SEGMENTS as u32 {
            let data = packet.get_data();
            let gap = idx - self.lidx;
            let ghost s0 = self@;
            let mut k: u32 = 1;
            while k < gap
                invariant
                    self.wf(),
                    1 <= k <= gap,
                    gap == idx - s0.lidx,
                    gap <= BUFFER_SEGMENTS,
                    idx <= u32::MAX,
                    self@ == advance_missing(s0, (k - 1) as nat),
                    self@.started,
                    self@.lidx == s0.lidx + k - 1,
                    self.spec_name() == old(self).spec_name(),
                decreases gap - k,
            {
                proof {
                    lemma_advance_missing_snoc(s0, (k - 1) as nat);
                }
                self.advance_slot(None);
                k = k + 1;
            }
            self.advance_slot(Some(data));
            proof {
                assert(self@ == advance_one(
                    advance_missing(s0, (gap - 1) as nat),
                    Some(packet@.data),
                ));
            }
        } else {
            let data = packet.get_data();
            self.start_from(idx, data);
        }
    }

    /// Serves the oldest pending segment to the consumer; a missing
    /// segment, or an empty window, comes out as silence of the expected
    /// length. A read never blocks and never fails.
    pub fn read(&mut self) -> (out: Vec<i16>)
        requires
            old(self).wf(),
        ensures
            final(self).wf(),
            out@ == read_output(old(self)@),
            final(self)@ == read_step(old(self)@),
            final(self).spec_name() == old(self).spec_name(),
    {
        let ghost pre = self@;
        let ghost front0 = model_front(pre);
        if self.count == 0 {
            return zero_vec(self.seg_len);
        }
        proof {
            assert(pre.queue[0] == opt_view(self.segments@[self.ridx as int]));
            lemma_missing_unfold(pre.queue, front0);
        }
        let out = match &self.segments[self.ridx] {
            Some(seg) => copy_segment(seg),
            None => zero_vec(self.seg_len),
        };
        if self.segments[self.ridx].is_none() {
            self.missed.remove(0);
        }
        self.segments[self.ridx] = None;
        self.ridx = if self.ridx + 1 == BUFFER_SEGMENTS {
            0
        } else {
            self.ridx + 1
        };
        self.count = self.count - 1;
        proof {
            assert(self@.queue =~= pre.queue.drop_first());
            assert(model_front(self@) == front0 + 1);
            assert(self.missed@ =~= missing_from(self@.queue, front0 + 1));
            assert(self@ =~= read_step(pre));
        }
        out
    }

    /// The channel name this receiver was registered under.
    pub fn name(&self) -> (n: &String)
        ensures
            n@ == self.spec_name(),
    {
        &self.name
    }

    /// Whether a first packet has arrived.
    pub fn has_started(&self) -> (b: bool)
        requires
            self.wf(),
        ensures
            b == self@.started,
    {
        self.started
    }

    /// The last received in-order sequence index.
    pub fn last_index(&self) -> (x: u32)
        requires
            self.wf(),
        ensures
            x == self@.lidx,
    {
        self.lidx
    }

    /// How many segments are pending, missing marks included.
    pub fn pending(&self) -> (c: usize)
        requires
            self.wf(),
        ensures
            c == self@.queue.len(),
    {
        self.count
    }

    /// The sequence numbers still missing from the window, oldest first.
    pub fn missed_list(&self) -> (m: &Vec<u32>)
        requires
            self.wf(),
        ensures
            m@ == model_missing(self@),
    {
        &self.missed
    }

    /// The expected segment length, from the most recent stored segment.
    pub fn segment_len(&self) -> (n: usize)
        requires
            self.wf(),
        ensures
            n == self@.seg_len,
    {
        self.seg_len
    }

    /// Builds the receive side and the send side for every configured
    /// name: a registry with one fresh receiver per channel, ids assigned
    /// by list position starting at zero, and the matching send handles.
    /// The caller owns the transport that feeds the registry and carries
    /// the encoded packets.
    pub fn build(config: ChannelReceiverBuildConfig) -> (r: (ChannelRegistry, Vec<Channel>))
        requires
            config.spec_names().len() <= u32::MAX,
        ensures
            r.0.wf(),
            r.0.spec_ids().len() == config.spec_names().len(),
            r.0.spec_receivers().len() == config.spec_names().len(),
            r.1@.len() == config.spec_names().len(),
            forall|i: int|
                0 <= i < config.spec_names().len() ==> {
                    &&& r.0.spec_ids()[i] == i
                    &&& !r.0.spec_receivers()[i]@.started
                    &&& r.0.spec_receivers()[i].spec_name() == config.spec_names()[i]@
                    &&& r.1@[i].spec_id() == i
                    &&& r.1@[i].spec_send_index() == 0
                    &&& r.1@[i].spec_name() == config.spec_names()[i]@
                },
    {
        let mut registry = ChannelRegistry::new();
        let mut channels: Vec<Channel> = Vec::new();
        let n = config.names.len();
        let mut i: usize = 0;
        while i < n
            invariant
                n == config.spec_names().len(),
                n <= u32::MAX,
                i <= n,
                registry.wf(),
                registry.spec_ids().len() == i,
                registry.spec_receivers().len() == i,
                channels@.len() == i,
                forall|j: int|
                    0 <= j < i ==> {
                        &&& registry.spec_ids()[j] == j
                        &&& !registry.spec_receivers()[j]@.started
                        &&& registry.spec_receivers()[j].spec_name() == config.spec_names()[j]@
                        &&& channels@[j].spec_id() == j
                        &&& channels@[j].spec_send_index() == 0
                        &&& channels@[j].spec_name() == config.spec_names()[j]@
                    },
            decreases n - i,
        {
            let name = &config.names[i];
            registry.register(i as u32, name.as_str());
            channels.push(Channel::new(name.clone(), i as u32));
            i = i + 1;
        }
        (registry, channels)
    }
}

/// One missing step more at the tail: advancing over `n + 1` missing
/// indices is one missing step after advancing over `n`.
proof fn lemma_advance_missing_snoc(s: ReceiverModel, n: nat)
    ensures
        advance_missing(s, n + 1) == advance_one(advance_missing(s, n), None),
    decreases n,
{
    assert(advance_missing(s, n + 1) == advance_missing(advance_one(s, None), n));
    if n == 0 {
        assert(advance_missing(advance_one(s, None), 0) == advance_one(s, None));
        assert(advance_missing(s, 0) == s);
    } else {
        lemma_advance_missing_snoc(advance_one(s, None), (n - 1) as nat);
        assert(advance_missing(s, n) == advance_missing(advance_one(s, None), (n - 1) as nat));
    }
}

/// Feeds segments with consecutive sequence indices `first, first + 1, ...`
/// into the window, in order.
pub open spec fn feed_in_order(s: ReceiverModel, datas: Seq<Seq<i16>>, first: u32) -> ReceiverModel
    decreases datas.len(),
{
    if datas.len() == 0 {
        s
    } else {
        feed_in_order(receive_step(s, first, datas[0]), datas.drop_first(), (first + 1) as u32)
    }
}

/// The given segments, each wrapped as a present window entry.
pub open spec fn all_present(datas: Seq<Seq<i16>>) -> Seq<Option<Seq<i16>>> {
    Seq::new(datas.len(), |j: int| Some(datas[j]))
}

/// The most recent window-full of entries.
pub open spec fn window_suffix(q: Seq<Option<Seq<i16>>>) -> Seq<Option<Seq<i16>>> {
    if q.len() <= BUFFER_SEGMENTS {
        q
    } else {
        q.skip(q.len() - BUFFER_SEGMENTS)
    }
}

/// The outputs of `n` consecutive reads.
pub open spec fn read_outputs(s: ReceiverModel, n: nat) -> Seq<Seq<i16>>
    decreases n,
{
    if n == 0 {
        Seq::empty()
    } else {
        seq![read_output(s)] + read_outputs(read_step(s), (n - 1) as nat)
    }
}

/// Feeding consecutive indices onto a started window keeps exactly the
/// most recent window-full of the old entries and the new segments.
proof fn lemma_feed_started(s: ReceiverModel, datas: Seq<Seq<i16>>, first: u32)
    requires
        s.started,
        s.queue.len() <= BUFFER_SEGMENTS,
        first == s.lidx + 1,
        s.lidx + datas.len() <= u32::MAX,
    ensures
        ({
            let r = feed_in_order(s, datas, first);
            &&& r.started
            &&& r.lidx == s.lidx + datas.len()
            &&& r.queue == window_suffix(s.queue + all_present(datas))
        }),
    decreases datas.len(),
{
    if datas.len() == 0 {
        assert(s.queue + all_present(datas) =~= s.queue);
    } else {
        let s1 = receive_step(s, first, datas[0]);
        assert(s1 == advance_one(advance_missing(s, 0), Some(datas[0])));
        assert(s1.queue == push_bounded(s.queue, Some(datas[0])));
        let a = s.queue + all_present(datas);
        if datas.len() == 1 {
            assert(feed_in_order(s, datas, first) == feed_in_order(
                s1,
                datas.drop_first(),
                (first + 1) as u32,
            ));
            assert(datas.drop_first().len() == 0);
            assert(feed_in_order(s, datas, first) == s1);
            if s.queue.len() < BUFFER_SEGMENTS {
                assert(s1.queue =~= a);
            } else {
                assert(s1.queue =~= a.skip(1));
                assert(window_suffix(a) =~= a.skip(1));
            }
        } else {
            lemma_feed_started(s1, datas.drop_first(), (first + 1) as u32);
            assert(feed_in_order(s, datas, first) == feed_in_order(
                s1,
                datas.drop_first(),
                (first + 1) as u32,
            ));
            let rest = all_present(datas.drop_first());
            if s.queue.len() < BUFFER_SEGMENTS {
                assert(s1.queue + rest =~= a);
            } else {
                assert(s1.queue + rest =~= a.skip(1));
                assert(window_suffix(a.skip(1)) =~= window_suffix(a));
            }
        }
    }
}

/// Feeding segments with consecutive indices from the start of a stream
/// keeps the most recent window-full, each present, with nothing missing.
pub proof fn lemma_in_order_feed(s0: ReceiverModel, datas: Seq<Seq<i16>>)
    requires
        !s0.started,
        1 <= datas.len(),
        datas.len() <= u32::MAX,
    ensures
        ({
            let r = feed_in_order(s0, datas, 0);
            let m = if datas.len() <= BUFFER_SEGMENTS {
                datas.len() as int
            } else {
                BUFFER_SEGMENTS as int
            };
            &&& r.started
            &&& r.lidx == datas.len() - 1
            &&& r.queue.len() == m
            &&& forall|j: int| 0 <= j < m ==> r.queue[j] == Some(datas[datas.len() - m + j])
            &&& model_missing(r) == Seq::<u32>::empty()
        }),
{
    let s1 = receive_step(s0, 0, datas[0]);
    assert(s1 == fresh_model(0, datas[0]));
    lemma_feed_started(s1, datas.drop_first(), 1);
    assert(feed_in_order(s0, datas, 0) == feed_in_order(s1, datas.drop_first(), 1));
    let r = feed_in_order(s0, datas, 0);
    let a = s1.queue + all_present(datas.drop_first());
    assert(a =~= all_present(datas));
    let m = if datas.len() <= BUFFER_SEGMENTS {
        datas.len() as int
    } else {
        BUFFER_SEGMENTS as int
    };
    assert(r.queue == window_suffix(all_present(datas)));
    assert(r.queue.len() == m);
    assert(forall|j: int| 0 <= j < m ==> r.queue[j] == Some(datas[datas.len() - m + j]));
    lemma_missing_all_some(r.queue, model_front(r));
}

/// Reading while every pending segment is present yields those segments,
/// oldest first, with no silence substituted.
pub proof fn lemma_reads_present(s: ReceiverModel, n: nat)
    requires
        n <= s.queue.len(),
        forall|j: int| 0 <= j < s.queue.len() ==> s.queue[j] is Some,
    ensures
        read_outputs(s, n).len() == n,
        forall|j: int| 0 <= j < n ==> Some(read_outputs(s, n)[j]) == s.queue[j],
    decreases n,
{
    if n > 0 {
        assert(s.queue[0] is Some);
        assert(Some(read_output(s)) == s.queue[0]);
        let s1 = read_step(s);
        assert(s1.queue == s.queue.drop_first());
        lemma_reads_present(s1, (n - 1) as nat);
        assert forall|j: int| 0 <= j < n implies Some(read_outputs(s, n)[j]) == s.queue[j] by {
            if j > 0 {
                assert(read_outputs(s, n)[j] == read_outputs(s1, (n - 1) as nat)[j - 1]);
                assert(s1.queue[j - 1] == s.queue[j]);
            }
        }
    }
}

/// In-order delivery: segments fed with indices from zero, at most a
/// window-full, then read back one per feed, come out exactly in order
/// with no silence inserted.
pub proof fn lemma_in_order_delivery(s0: ReceiverModel, datas: Seq<Seq<i16>>)
    requires
        !s0.started,
        1 <= datas.len() <= BUFFER_SEGMENTS,
    ensures
        ({
            let r = feed_in_order(s0, datas, 0);
            &&& read_outputs(r, datas.len()).len() == datas.len()
            &&& forall|j: int|
                0 <= j < datas.len() ==> read_outputs(r, datas.len())[j] == datas[j]
        }),
{
    lemma_in_order_feed(s0, datas);
    let r = feed_in_order(s0, datas, 0);
    lemma_reads_present(r, datas.len());
    assert forall|j: int| 0 <= j < datas.len() implies read_outputs(r, datas.len())[j]
        == datas[j] by {
        assert(Some(read_outputs(r, datas.len())[j]) == r.queue[j]);
        assert(r.queue[j] == Some(datas[j]));
    }
}

/// Overflow eviction: feeding more consecutive segments than the ring
/// holds, with no reads in between, retains exactly the most recent
/// window-full; the oldest segments are gone for good.
pub proof fn lemma_overflow_eviction(s0: ReceiverModel, datas: Seq<Seq<i16>>)
    requires
        !s0.started,
        datas.len() > BUFFER_SEGMENTS,
        datas.len() <= u32::MAX,
    ensures
        ({
            let r = feed_in_order(s0, datas, 0);
            &&& r.queue.len() == BUFFER_SEGMENTS
            &&& forall|j: int|
                0 <= j < BUFFER_SEGMENTS ==> r.queue[j] == Some(
                    datas[datas.len() - BUFFER_SEGMENTS + j],
                )
            &&& model_missing(r) == Seq::<u32>::empty()
        }),
{
    lemma_in_order_feed(s0, datas);
}

/// Stale and duplicate rejection: a packet whose index is at or below the
/// last received in-order index causes no state change at all.
pub proof fn lemma_stale_ignored(s: ReceiverModel, idx: u32, data: Seq<i16>)
    requires
        s.started,
        idx <= s.lidx,
    ensures
        receive_step(s, idx, data) == s,
{
}

/// Large-gap resynchronization: a packet beyond the representable window
/// discards the obsolete window, clears the missing set, and restarts
/// buffering from the new index, with no attempt to backfill the gap.
pub proof fn lemma_large_gap_resync(s: ReceiverModel, idx: u32, data: Seq<i16>)
    requires
        s.started,
        idx > s.lidx + BUFFER_SEGMENTS,
    ensures
        receive_step(s, idx, data) == fresh_model(idx, data),
        receive_step(s, idx, data).lidx == idx,
        receive_step(s, idx, data).queue == seq![Some(data)],
        model_missing(receive_step(s, idx, data)) == Seq::<u32>::empty(),
{
    let r = receive_step(s, idx, data);
    assert(forall|j: int| 0 <= j < r.queue.len() ==> r.queue[j] is Some);
    lemma_missing_all_some(r.queue, model_front(r));
}

} // verus!
