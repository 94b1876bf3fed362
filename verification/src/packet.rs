//! The wire packet format: a fixed 12-byte header (4 magic bytes, 32-bit
//! channel id, 32-bit sequence index, both big endian) followed by 16-bit
//! signed PCM samples, each stored as a big-endian byte pair.

use vstd::prelude::*;

verus! {

/// Number of bytes in the fixed packet header.
pub const HEADER_BYTES: usize = 12;

/// The four bytes that open every packet: ASCII "wpp" and a zero byte.
pub open spec fn magic() -> Seq<u8> {
    seq![119u8, 112u8, 112u8, 0u8]
}

/// The unsigned 16-bit word that stands for a sample on the wire.
pub open spec fn sample_word(v: i16) -> int {
    if v < 0 {
        v + 65536
    } else {
        v as int
    }
}

/// High (first) byte of a sample in network byte order.
pub open spec fn sample_hi(v: i16) -> u8 {
    (sample_word(v) / 256) as u8
}

/// Low (second) byte of a sample in network byte order.
pub open spec fn sample_lo(v: i16) -> u8 {
    (sample_word(v) % 256) as u8
}

/// The sample denoted by a big-endian byte pair.
pub open spec fn sample_of_bytes(hi: u8, lo: u8) -> i16 {
    if hi * 256 + lo < 32768 {
        (hi * 256 + lo) as i16
    } else {
        (hi * 256 + lo - 65536) as i16
    }
}

/// Big-endian bytes of a 32-bit header field.
pub open spec fn u32_bytes(v: u32) -> Seq<u8> {
    seq![
        (v / 0x1000000) as u8,
        ((v / 0x10000) % 256) as u8,
        ((v / 256) % 256) as u8,
        (v % 256) as u8,
    ]
}

/// The 32-bit field denoted by four big-endian bytes.
pub open spec fn u32_of_bytes(b0: u8, b1: u8, b2: u8, b3: u8) -> u32 {
    (b0 * 0x1000000 + b1 * 0x10000 + b2 * 256 + b3) as u32
}

/// Payload bytes: each sample as a big-endian pair, in order.
pub open spec fn sample_bytes(data: Seq<i16>) -> Seq<u8> {
    Seq::new(
        2 * data.len(),
        |k: int|
            if k % 2 == 0 {
                sample_hi(data[k / 2])
            } else {
                sample_lo(data[k / 2])
            },
    )
}

/// The whole wire image of a packet with the given fields.
pub open spec fn wire_bytes(channel: u32, index: u32, data: Seq<i16>) -> Seq<u8> {
    magic() + u32_bytes(channel) + u32_bytes(index) + sample_bytes(data)
}

/// A buffer decodes successfully exactly when it is long enough for the
/// header, its payload is a whole number of samples, and it opens with the
/// magic bytes.
pub open spec fn valid_wire(b: Seq<u8>) -> bool {
    &&& b.len() >= HEADER_BYTES
    &&& (b.len() - HEADER_BYTES) % 2 == 0
    &&& b.subrange(0, 4) == magic()
}

/// The channel id carried by a buffer.
pub open spec fn wire_channel(b: Seq<u8>) -> u32 {
    u32_of_bytes(b[4], b[5], b[6], b[7])
}

/// The sequence index carried by a buffer.
pub open spec fn wire_index(b: Seq<u8>) -> u32 {
    u32_of_bytes(b[8], b[9], b[10], b[11])
}

/// The samples carried by a buffer's payload.
pub open spec fn wire_samples(b: Seq<u8>) -> Seq<i16> {
    if b.len() < HEADER_BYTES {
        Seq::empty()
    } else {
        Seq::new(
            ((b.len() - HEADER_BYTES) / 2) as nat,
            |i: int| sample_of_bytes(b[12 + 2 * i], b[13 + 2 * i]),
        )
    }
}

/// What a packet denotes: its channel id, its sequence index, its samples.
pub ghost struct PacketModel {
    pub channel: u32,
    pub index: u32,
    pub data: Seq<i16>,
}

/// Fixed-size packet header as carried on the wire.
pub struct Header {
    pub identifier: [u8; 4],
    pub channel: u32,
    pub index: u32,
}

/// A packet built locally for sending: it owns its sample data.
pub struct ConstructedPacket {
    pub header: Header,
    pub data: Vec<i16>,
}

/// A packet decoded from the wire: it owns the validated byte buffer and
/// reads its fields out of it on demand.
pub struct OwnedArchivedPacket {
    buffer: Vec<u8>,
}

/// A packet is either constructed for sending or decoded from the wire;
/// both variants offer the channel id, the sequence index and the samples.
pub enum Packet {
    Constructed(ConstructedPacket),
    Received(OwnedArchivedPacket),
}

/// Error from decoding a byte buffer that is not a valid packet.
#[derive(Clone, Copy, Debug, PartialEq, Eq, Structural)]
pub enum DecodeError {
    /// The buffer cannot even hold the fixed header.
    Truncated,
    /// The payload is not a whole number of 16-bit samples.
    OddPayload,
    /// The buffer does not open with the magic bytes.
    BadMagic,
}

/// Error from encoding a packet that owns no constructed sample data.
#[derive(Clone, Copy, Debug, PartialEq, Eq, Structural)]
pub enum EncodeError {
    /// Only a constructed packet may be encoded for sending.
    ReceivedPacket,
}

impl View for ConstructedPacket {
    type V = PacketModel;

    open spec fn view(&self) -> PacketModel {
        PacketModel { channel: self.header.channel, index: self.header.index, data: self.data@ }
    }
}

impl View for OwnedArchivedPacket {
    type V = PacketModel;

    closed spec fn view(&self) -> PacketModel {
        PacketModel {
            channel: wire_channel(self.buffer@),
            index: wire_index(self.buffer@),
            data: wire_samples(self.buffer@),
        }
    }
}

impl View for Packet {
    type V = PacketModel;

    open spec fn view(&self) -> PacketModel {
        match self {
            Packet::Constructed(p) => p@,
            Packet::Received(p) => p@,
        }
    }
}

impl OwnedArchivedPacket {
    /// A received packet always wraps a buffer that passed validation.
    #[verifier::type_invariant]
    spec fn valid(&self) -> bool {
        valid_wire(self.buffer@)
    }
}

impl ConstructedPacket {
    /// A well-formed constructed packet carries the magic identifier.
    pub open spec fn wf(&self) -> bool {
        self.header.identifier@ == magic()
    }
}

impl Packet {
    /// A well-formed packet: a constructed one carries the magic identifier;
    /// a received one is valid by construction.
    pub open spec fn wf(&self) -> bool {
        match self {
            Packet::Constructed(p) => p.wf(),
            Packet::Received(_) => true,
        }
    }
}

/// Splits a sample into its big-endian byte pair.
fn sample_to_bytes(v: i16) -> (r: (u8, u8))
    ensures
        r.0 == sample_hi(v),
        r.1 == sample_lo(v),
{
    let w: u32 = if v < 0 {
        (v as i32 + 65536) as u32
    } else {
        v as u32
    };
    proof {
        assert(w == sample_word(v));
    }
    ((w / 256) as u8, (w % 256) as u8)
}

/// Reads a sample out of its big-endian byte pair.
fn sample_from_bytes(hi: u8, lo: u8) -> (v: i16)
    ensures
        v == sample_of_bytes(hi, lo),
{
    let w: u32 = hi as u32 * 256 + lo as u32;
    if w < 32768 {
        w as i16
    } else {
        (w as i32 - 65536) as i16
    }
}

/// Splits a 32-bit header field into its big-endian bytes.
fn u32_to_bytes(v: u32) -> (r: (u8, u8, u8, u8))
    ensures
        u32_bytes(v) == seq![r.0, r.1, r.2, r.3],
{
    let r = (
        (v / 0x1000000) as u8,
        ((v / 0x10000) % 256) as u8,
        ((v / 256) % 256) as u8,
        (v % 256) as u8,
    );
    proof {
        assert(u32_bytes(v) =~= seq![r.0, r.1, r.2, r.3]);
    }
    r
}

/// Reads a 32-bit header field out of its big-endian bytes.
fn u32_from_bytes(b0: u8, b1: u8, b2: u8, b3: u8) -> (v: u32)
    ensures
        v == u32_of_bytes(b0, b1, b2, b3),
{
    b0 as u32 * 0x1000000 + b1 as u32 * 0x10000 + b2 as u32 * 256 + b3 as u32
}

/// Copies a sample vector.
fn copy_samples(src: &Vec<i16>) -> (d: Vec<i16>)
    ensures
        d@ == src@,
{
    let mut d: Vec<i16> = Vec::new();
    let mut i: usize = 0;
    while i < src.len()
        invariant
            i <= src.len(),
            d@ == src@.subrange(0, i as int),
        decreases src.len() - i,
    {
        d.push(src[i]);
        proof {
            assert(d@ =~= src@.subrange(0, i + 1));
        }
        i = i + 1;
    }
    proof {
        assert(d@ =~= src@);
    }
    d
}

impl ConstructedPacket {
    /// A constructed packet with the magic identifier and the given fields.
    pub fn new(channel: u32, index: u32, data: Vec<i16>) -> (p: ConstructedPacket)
        ensures
            p.wf(),
            p@ == (PacketModel { channel, index, data: data@ }),
    {
        let identifier: [u8; 4] = [119, 112, 112, 0];
        let p = ConstructedPacket { header: Header { identifier, channel, index }, data };
        proof {
            assert(p.header.identifier@ =~= magic());
        }
        p
    }

    /// The wire image of this packet: its identifier bytes, then the channel
    /// id, the sequence index, and each sample in network byte order.
    pub fn encode(&self) -> (out: Vec<u8>)
        ensures
            out@ == self.header.identifier@ + u32_bytes(self.header.channel) + u32_bytes(
                self.header.index,
            ) + sample_bytes(self.data@),
            self.wf() ==> out@ == wire_bytes(self@.channel, self@.index, self@.data),
    {
        let ghost prefix = self.header.identifier@ + u32_bytes(self.header.channel) + u32_bytes(
            self.header.index,
        );
        let mut out: Vec<u8> = Vec::new();
        out.push(self.header.identifier[0]);
        out.push(self.header.identifier[1]);
        out.push(self.header.identifier[2]);
        out.push(self.header.identifier[3]);
        let (c0, c1, c2, c3) = u32_to_bytes(self.header.channel);
        out.push(c0);
        out.push(c1);
        out.push(c2);
        out.push(c3);
        let (i0, i1, i2, i3) = u32_to_bytes(self.header.index);
        out.push(i0);
        out.push(i1);
        out.push(i2);
        out.push(i3);
        proof {
            assert(out@ =~= prefix);
        }
        let mut i: usize = 0;
        while i < self.data.len()
            invariant
                i <= self.data.len(),
                out@ == prefix + sample_bytes(self.data@).subrange(0, 2 * i as int),
            decreases self.data.len() - i,
        {
            let (hi, lo) = sample_to_bytes(self.data[i]);
            out.push(hi);
            out.push(lo);
            proof {
                let k = 2 * i as int;
                assert(k % 2 == 0 && k / 2 == i as int);
                assert((k + 1) % 2 == 1 && (k + 1) / 2 == i as int);
                assert(sample_bytes(self.data@)[k] == sample_hi(self.data@[i as int]));
                assert(sample_bytes(self.data@)[k + 1] == sample_lo(self.data@[i as int]));
                assert(out@ =~= prefix + sample_bytes(self.data@).subrange(0, 2 * (i + 1)));
            }
            i = i + 1;
        }
        proof {
            assert(sample_bytes(self.data@).subrange(0, 2 * i as int) =~= sample_bytes(self.data@));
            assert(self.wf() ==> out@ =~= wire_bytes(self@.channel, self@.index, self@.data));
        }
        out
    }
}

impl OwnedArchivedPacket {
    /// Validates a buffer: header length, payload parity, magic bytes.
    fn decode(buf: Vec<u8>) -> (r: Result<OwnedArchivedPacket, DecodeError>)
        ensures
            r is Ok <==> valid_wire(buf@),
            r matches Ok(p) ==> p@.channel == wire_channel(buf@) && p@.index == wire_index(buf@)
                && p@.data == wire_samples(buf@),
            buf@.len() < HEADER_BYTES ==> r == Err::<OwnedArchivedPacket, DecodeError>(
                DecodeError::Truncated,
            ),
            buf@.len() >= HEADER_BYTES && (buf@.len() - HEADER_BYTES) % 2 != 0 ==> r == Err::<
                OwnedArchivedPacket,
                DecodeError,
            >(DecodeError::OddPayload),
            buf@.len() >= HEADER_BYTES && (buf@.len() - HEADER_BYTES) % 2 == 0 && buf@.subrange(
                0,
                4,
            ) != magic() ==> r == Err::<OwnedArchivedPacket, DecodeError>(DecodeError::BadMagic),
    {
        if buf.len() < HEADER_BYTES {
            return Err(DecodeError::Truncated);
        }
        if (buf.len() - HEADER_BYTES) % 2 != 0 {
            return Err(DecodeError::OddPayload);
        }
        if !(buf[0] == 119 && buf[1] == 112 && buf[2] == 112 && buf[3] == 0) {
            proof {
                let s = buf@.subrange(0, 4);
                assert(s[0] == buf@[0] && s[1] == buf@[1] && s[2] == buf@[2] && s[3] == buf@[3]);
                assert(magic()[0] == 119u8 && magic()[1] == 112u8);
                assert(magic()[2] == 112u8 && magic()[3] == 0u8);
            }
            return Err(DecodeError::BadMagic);
        }
        proof {
            assert(buf@.subrange(0, 4) =~= magic());
        }
        Ok(OwnedArchivedPacket { buffer: buf })
    }

    /// The channel id, read out of the header bytes.
    fn get_channel(&self) -> (c: u32)
        ensures
            c == self@.channel,
    {
        proof {
            use_type_invariant(self);
        }
        u32_from_bytes(self.buffer[4], self.buffer[5], self.buffer[6], self.buffer[7])
    }

    /// The sequence index, read out of the header bytes.
    fn get_index(&self) -> (x: u32)
        ensures
            x == self@.index,
    {
        proof {
            use_type_invariant(self);
        }
        u32_from_bytes(self.buffer[8], self.buffer[9], self.buffer[10], self.buffer[11])
    }

    /// The samples, read out of the payload bytes in native order.
    fn get_data(&self) -> (d: Vec<i16>)
        ensures
            d@ == self@.data,
    {
        proof {
            use_type_invariant(self);
        }
        let n = (self.buffer.len() - HEADER_BYTES) / 2;
        proof {
            assert(self@.data.len() == n);
            vstd::arithmetic::div_mod::lemma_fundamental_div_mod(
                self.buffer@.len() - HEADER_BYTES,
                2,
            );
        }
        let mut d: Vec<i16> = Vec::new();
        let mut i: usize = 0;
        while i < n
            invariant
                i <= n,
                valid_wire(self.buffer@),
                n == ((self.buffer@.len() - HEADER_BYTES) / 2) as usize,
                2 * n == self.buffer@.len() - HEADER_BYTES,
                2 * n + HEADER_BYTES <= usize::MAX,
                d@.len() == i,
                forall|j: int| 0 <= j < i ==> d@[j] == self@.data[j],
            decreases n - i,
        {
            let hi = self.buffer[HEADER_BYTES + 2 * i];
            let lo = self.buffer[HEADER_BYTES + 2 * i + 1];
            d.push(sample_from_bytes(hi, lo));
            i = i + 1;
        }
        proof {
            assert(d@ =~= self@.data);
        }
        d
    }
}

impl Packet {
    /// A constructed packet ready for sending, with the magic identifier.
    pub fn new(channel: u32, index: u32, data: Vec<i16>) -> (p: Packet)
        ensures
            p.wf(),
            p is Constructed,
            p@ == (PacketModel { channel, index, data: data@ }),
    {
        Packet::Constructed(ConstructedPacket::new(channel, index, data))
    }

    /// Encodes a constructed packet to its wire image; a received packet
    /// owns no constructed sample data and is refused.
    pub fn encode(&self) -> (r: Result<Vec<u8>, EncodeError>)
        ensures
            r is Ok <==> self is Constructed,
            self matches Packet::Constructed(p) ==> (r matches Ok(out) && out@
                == p.header.identifier@ + u32_bytes(p.header.channel) + u32_bytes(p.header.index)
                + sample_bytes(p.data@)),
            self is Constructed && self.wf() ==> (r matches Ok(out) && out@ == wire_bytes(
                self@.channel,
                self@.index,
                self@.data,
            )),
            self is Received ==> r == Err::<Vec<u8>, EncodeError>(EncodeError::ReceivedPacket),
    {
        match self {
            Packet::Constructed(packet) => Ok(packet.encode()),
            Packet::Received(_) => Err(EncodeError::ReceivedPacket),
        }
    }

    /// Decodes a byte buffer; succeeds exactly on valid wire images, and
    /// names the first violated rule otherwise.
    pub fn decode(buf: Vec<u8>) -> (r: Result<Packet, DecodeError>)
        ensures
            r is Ok <==> valid_wire(buf@),
            r matches Ok(p) ==> p.wf() && p is Received && p@.channel == wire_channel(buf@)
                && p@.index == wire_index(buf@) && p@.data == wire_samples(buf@),
            buf@.len() < HEADER_BYTES ==> r == Err::<Packet, DecodeError>(DecodeError::Truncated),
            buf@.len() >= HEADER_BYTES && (buf@.len() - HEADER_BYTES) % 2 != 0 ==> r == Err::<
                Packet,
                DecodeError,
            >(DecodeError::OddPayload),
            buf@.len() >= HEADER_BYTES && (buf@.len() - HEADER_BYTES) % 2 == 0 && buf@.subrange(
                0,
                4,
            ) != magic() ==> r == Err::<Packet, DecodeError>(DecodeError::BadMagic),
    {
        match OwnedArchivedPacket::decode(buf) {
            Ok(p) => Ok(Packet::Received(p)),
            Err(e) => Err(e),
        }
    }

    /// The channel id of either variant.
    pub fn get_channel(&self) -> (c: u32)
        ensures
            c == self@.channel,
    {
        match self {
            Packet::Constructed(packet) => packet.header.channel,
            Packet::Received(packet) => packet.get_channel(),
        }
    }

    /// The sequence index of either variant.
    pub fn get_index(&self) -> (x: u32)
        ensures
            x == self@.index,
    {
        match self {
            Packet::Constructed(packet) => packet.header.index,
            Packet::Received(packet) => packet.get_index(),
        }
    }

    /// The samples of either variant, in native order.
    pub fn get_data(&self) -> (d: Vec<i16>)
        ensures
            d@ == self@.data,
    {
        match self {
            Packet::Constructed(packet) => copy_samples(&packet.data),
            Packet::Received(packet) => packet.get_data(),
        }
    }
}

/// A sample survives the trip through its byte pair.
proof fn lemma_sample_round_trip(v: i16)
    ensures
        sample_of_bytes(sample_hi(v), sample_lo(v)) == v,
{
    let w = sample_word(v);
    assert(0 <= w < 65536);
    vstd::arithmetic::div_mod::lemma_fundamental_div_mod(w, 256);
    assert(sample_hi(v) * 256 + sample_lo(v) == w);
}

/// A 32-bit field survives the trip through its big-endian bytes.
proof fn lemma_u32_round_trip(v: u32)
    ensures
        u32_of_bytes(u32_bytes(v)[0], u32_bytes(v)[1], u32_bytes(v)[2], u32_bytes(v)[3]) == v,
{
    assert(v / 0x1000000 * 0x1000000 + (v / 0x10000) % 256 * 0x10000 + (v / 256) % 256 * 256 + v
        % 256 == v) by (bit_vector);
}

/// Round trip: the wire image of any packet is a valid buffer, and decoding
/// it recovers the channel id, the sequence index, and the samples exactly.
pub proof fn lemma_round_trip(channel: u32, index: u32, data: Seq<i16>)
    ensures
        valid_wire(wire_bytes(channel, index, data)),
        wire_channel(wire_bytes(channel, index, data)) == channel,
        wire_index(wire_bytes(channel, index, data)) == index,
        wire_samples(wire_bytes(channel, index, data)) == data,
{
    let b = wire_bytes(channel, index, data);
    assert(b.len() == 12 + 2 * data.len());
    assert(b.subrange(0, 4) =~= magic());
    lemma_u32_round_trip(channel);
    lemma_u32_round_trip(index);
    assert(wire_channel(b) == channel);
    assert(wire_index(b) == index);
    assert forall|i: int| 0 <= i < data.len() implies wire_samples(b)[i] == data[i] by {
        assert(b[12 + 2 * i] == sample_bytes(data)[2 * i]);
        assert(b[13 + 2 * i] == sample_bytes(data)[2 * i + 1]);
        assert((2 * i) % 2 == 0 && (2 * i) / 2 == i);
        assert((2 * i + 1) % 2 == 1 && (2 * i + 1) / 2 == i);
        lemma_sample_round_trip(data[i]);
    }
    assert(wire_samples(b) =~= data);
}

/// Rejection: a buffer too short for the header, one whose payload is not a
/// whole number of samples, and one without the magic bytes are never valid.
pub proof fn lemma_decode_rejects(b: Seq<u8>)
    ensures
        b.len() < HEADER_BYTES ==> !valid_wire(b),
        (b.len() - HEADER_BYTES) % 2 != 0 ==> !valid_wire(b),
        b.subrange(0, 4) != magic() ==> !valid_wire(b),
{
}

} // verus!
