//! Zero-copy parsers and builders for Ethernet, ARP, IPv4 and UDP, and the
//! Ethernet frame check sequence.
use vstd::prelude::*;

verus! {

/// Big-endian 16-bit integer at byte `i` of `s`.
pub open spec fn be16(s: Seq<u8>, i: int) -> int {
    s[i] as int * 256 + s[i + 1] as int
}

/// Big-endian encoding of a 16-bit integer.
pub open spec fn u16_be(x: u16) -> Seq<u8> {
    seq![(x / 256) as u8, (x % 256) as u8]
}

/// Big-endian encoding of a 32-bit integer.
pub open spec fn u32_be(x: u32) -> Seq<u8> {
    seq![(x / 0x100_0000) as u8, ((x / 0x1_0000) % 256) as u8, ((x / 256) % 256) as u8, (x % 256) as u8]
}

/// Reflected polynomial 0x04C11DB7 of Ethernet's CRC-32.
pub const CRC32_POLY_REFLECTED: u32 = 0xEDB8_8320;

/// One shift of the reflected CRC register.
pub open spec fn crc_shift(c: u32) -> u32 {
    if c & 1 != 0 {
        (c >> 1) ^ CRC32_POLY_REFLECTED
    } else {
        c >> 1
    }
}

/// `n` shifts of the CRC register.
pub open spec fn crc_rounds(c: u32, n: nat) -> u32
    decreases n,
{
    if n == 0 {
        c
    } else {
        crc_shift(crc_rounds(c, (n - 1) as nat))
    }
}

/// The CRC register after feeding the bytes of `s`, from an all-ones start.
pub open spec fn crc_register(s: Seq<u8>) -> u32
    decreases s.len(),
{
    if s.len() == 0 {
        0xffff_ffffu32
    } else {
        crc_rounds(crc_register(s.drop_last()) ^ (s.last() as u32), 8)
    }
}

/// CRC-32 as Ethernet uses it: reflected input and output, final inversion.
pub open spec fn crc32(s: Seq<u8>) -> u32 {
    crc_register(s) ^ 0xffff_ffffu32
}

fn crc_feed_byte(crc: u32, b: u8) -> (r: u32)
    ensures
        r == crc_rounds(crc ^ (b as u32), 8),
{
    let mut c: u32 = crc ^ (b as u32);
    let mut j: u32 = 0;
    while j < 8
        invariant
            j <= 8,
            c == crc_rounds(crc ^ (b as u32), j as nat),
        decreases 8 - j,
    {
        c = if c & 1 != 0 {
            (c >> 1) ^ CRC32_POLY_REFLECTED
        } else {
            c >> 1
        };
        j = j + 1;
    }
    c
}

/// Ethernet frame check sequence of `data`.
pub fn eth_crc(data: &[u8]) -> (r: u32)
    ensures
        r == crc32(data@),
{
    let mut crc: u32 = 0xffff_ffff;
    let mut i: usize = 0;
    while i < data.len()
        invariant
            i <= data@.len(),
            crc == crc_register(data@.subrange(0, i as int)),
        decreases data@.len() - i,
    {
        proof {
            let s = data@.subrange(0, i as int + 1);
            assert(s.drop_last() =~= data@.subrange(0, i as int));
        }
        crc = crc_feed_byte(crc, data[i]);
        i = i + 1;
    }
    proof {
        assert(data@.subrange(0, data@.len() as int) =~= data@);
    }
    crc ^ 0xffff_ffff
}

fn read_be16(s: &[u8], i: usize) -> (r: u16)
    requires
        i + 2 <= s@.len(),
    ensures
        r as int == be16(s@, i as int),
{
    (s[i] as u16) * 256 + (s[i + 1] as u16)
}

fn push_bytes(v: &mut Vec<u8>, s: &[u8])
    ensures
        final(v)@ == old(v)@ + s@,
{
    let mut i: usize = 0;
    while i < s.len()
        invariant
            i <= s@.len(),
            v@ == old(v)@ + s@.subrange(0, i as int),
        decreases s@.len() - i,
    {
        v.push(s[i]);
        i = i + 1;
        proof {
            assert(v@ =~= old(v)@ + s@.subrange(0, i as int));
        }
    }
    proof {
        assert(s@.subrange(0, s@.len() as int) =~= s@);
    }
}

fn push_u16_be(v: &mut Vec<u8>, x: u16)
    ensures
        final(v)@ == old(v)@ + u16_be(x),
{
    v.push((x / 256) as u8);
    v.push((x % 256) as u8);
    proof {
        assert(v@ =~= old(v)@ + u16_be(x));
    }
}

fn push_u32_be(v: &mut Vec<u8>, x: u32)
    ensures
        final(v)@ == old(v)@ + u32_be(x),
{
    v.push((x / 0x100_0000) as u8);
    v.push(((x / 0x1_0000) % 256) as u8);
    v.push(((x / 256) % 256) as u8);
    v.push((x % 256) as u8);
    proof {
        assert(v@ =~= old(v)@ + u32_be(x));
    }
}

/// Shortest Ethernet frame, check sequence excluded.
pub const MIN_FRAME_LEN_WITHOUT_CRC: usize = 60;

pub const DOT1Q_ID: u16 = 0x8100;

/// `s` padded with zero bytes up to length `n`.
pub open spec fn zero_pad(s: Seq<u8>, n: nat) -> Seq<u8> {
    if s.len() < n {
        s + Seq::new((n - s.len()) as nat, |i: int| 0u8)
    } else {
        s
    }
}

pub struct EthernetFrameParams<'a> {
    pub dest_mac: [u8; 6],
    pub source_mac: [u8; 6],
    pub ether_type: u16,
    pub payload: &'a [u8],
}

/// Frame bytes before the check sequence: addresses, type, payload, zero padding.
pub open spec fn ethernet_body_of(dest: Seq<u8>, source: Seq<u8>, ether_type: u16, payload: Seq<u8>) -> Seq<u8> {
    zero_pad(dest + source + u16_be(ether_type) + payload, 60)
}

/// A whole frame: body, then the CRC of the body big-endian.
pub open spec fn ethernet_frame_of(dest: Seq<u8>, source: Seq<u8>, ether_type: u16, payload: Seq<u8>) -> Seq<u8> {
    ethernet_body_of(dest, source, ether_type, payload) + u32_be(
        crc32(ethernet_body_of(dest, source, ether_type, payload)),
    )
}

pub open spec fn ethernet_body(p: EthernetFrameParams) -> Seq<u8> {
    ethernet_body_of(p.dest_mac@, p.source_mac@, p.ether_type, p.payload@)
}

/// The whole frame that the builder emits for `p`.
pub open spec fn ethernet_frame_bytes(p: EthernetFrameParams) -> Seq<u8> {
    ethernet_frame_of(p.dest_mac@, p.source_mac@, p.ether_type, p.payload@)
}

pub fn generate_ethernet_frame(params: &EthernetFrameParams<'_>) -> (r: Vec<u8>)
    requires
        params.payload@.len() + 18 <= usize::MAX,
    ensures
        r@ == ethernet_frame_bytes(*params),
{
    let length: usize = 6 + 6 + 2 + params.payload.len() + 4;
    let mut ret: Vec<u8> = Vec::with_capacity(length);
    push_bytes(&mut ret, &params.dest_mac);
    push_bytes(&mut ret, &params.source_mac);
    push_u16_be(&mut ret, params.ether_type);
    push_bytes(&mut ret, params.payload);
    let ghost unpadded = ret@;
    if ret.len() < MIN_FRAME_LEN_WITHOUT_CRC {
        while ret.len() < MIN_FRAME_LEN_WITHOUT_CRC
            invariant
                unpadded.len() < 60,
                unpadded.len() <= ret@.len() <= 60,
                ret@ == unpadded + Seq::new((ret@.len() - unpadded.len()) as nat, |i: int| 0u8),
            decreases 60 - ret@.len(),
        {
            ret.push(0u8);
            proof {
                assert(ret@ =~= unpadded + Seq::new((ret@.len() - unpadded.len()) as nat, |i: int| 0u8));
            }
        }
    }
    proof {
        assert(ret@ =~= ethernet_body(*params));
    }
    let crc = eth_crc(ret.as_slice());
    push_u32_be(&mut ret, crc);
    ret
}

#[derive(Debug, PartialEq, Eq, Structural)]
pub struct InvalidEthernetFrame;

/// An 802.1Q tag follows the source address.
pub open spec fn eth_has_dot1q(p: Seq<u8>) -> bool {
    be16(p, 12) == DOT1Q_ID as int
}

pub open spec fn eth_type_offset(p: Seq<u8>) -> int {
    if eth_has_dot1q(p) {
        16
    } else {
        12
    }
}

pub open spec fn eth_payload_offset(p: Seq<u8>) -> int {
    eth_type_offset(p) + 2
}

/// A header, with its tag if announced, and room for the check sequence.
pub open spec fn eth_valid(p: Seq<u8>) -> bool {
    &&& p.len() >= 14
    &&& eth_has_dot1q(p) ==> p.len() >= 18
    &&& eth_payload_offset(p) + 4 <= p.len()
}

pub open spec fn eth_ether_type(p: Seq<u8>) -> int {
    be16(p, eth_type_offset(p))
}

pub open spec fn eth_payload(p: Seq<u8>) -> Seq<u8> {
    p.subrange(eth_payload_offset(p), p.len() - 4)
}

/// A view of a well-formed Ethernet frame in a caller's buffer.
pub struct EthernetFrame<'a> {
    packet: &'a [u8],
}

impl<'a> View for EthernetFrame<'a> {
    type V = Seq<u8>;

    closed spec fn view(&self) -> Seq<u8> {
        self.packet@
    }
}

impl<'a> EthernetFrame<'a> {
    #[verifier::type_invariant]
    closed spec fn inv(&self) -> bool {
        eth_valid(self.packet@)
    }

    pub fn new(packet: &'a [u8]) -> (r: Result<EthernetFrame<'a>, InvalidEthernetFrame>)
        ensures
            r is Ok <==> eth_valid(packet@),
            r matches Ok(f) ==> f@ == packet@,
    {
        if packet.len() < 14 {
            return Err(InvalidEthernetFrame);
        }
        let tagged = read_be16(packet, 12) == DOT1Q_ID;
        let payload_offset: usize = if tagged { 18 } else { 14 };
        if tagged && packet.len() < 18 || packet.len() - 4 < payload_offset {
            return Err(InvalidEthernetFrame);
        }
        Ok(EthernetFrame { packet })
    }

    pub fn destination_mac(&self) -> (r: &'a [u8])
        ensures
            r@ == self@.subrange(0, 6),
    {
        proof {
            use_type_invariant(self);
        }
        &self.packet[0..6]
    }

    pub fn source_mac(&self) -> (r: &'a [u8])
        ensures
            r@ == self@.subrange(6, 12),
    {
        proof {
            use_type_invariant(self);
        }
        &self.packet[6..12]
    }

    pub fn has_dot1q(&self) -> (r: bool)
        ensures
            r == eth_has_dot1q(self@),
    {
        proof {
            use_type_invariant(self);
        }
        read_be16(self.packet, 12) == DOT1Q_ID
    }

    pub fn tag(&self) -> (r: Option<&'a [u8]>)
        ensures
            r is Some <==> eth_has_dot1q(self@),
            r matches Some(t) ==> t@ == self@.subrange(12, 16),
    {
        proof {
            use_type_invariant(self);
        }
        if self.has_dot1q() {
            Some(&self.packet[12..16])
        } else {
            None
        }
    }

    pub fn ether_type_offset(&self) -> (r: usize)
        ensures
            r == eth_type_offset(self@),
    {
        if self.has_dot1q() {
            16
        } else {
            12
        }
    }

    pub fn ether_type(&self) -> (r: u16)
        ensures
            r == eth_ether_type(self@),
    {
        proof {
            use_type_invariant(self);
        }
        let start = self.ether_type_offset();
        read_be16(self.packet, start)
    }

    pub fn payload_offset(&self) -> (r: usize)
        ensures
            r == eth_payload_offset(self@),
    {
        self.ether_type_offset() + 2
    }

    pub fn payload(&self) -> (r: &'a [u8])
        ensures
            r@ == eth_payload(self@),
    {
        proof {
            use_type_invariant(self);
        }
        let start = self.payload_offset();
        let end = self.packet.len() - 4;
        &self.packet[start..end]
    }

    /// The check sequence as the frame carries it, big-endian in its last four bytes.
    pub fn crc(&self) -> (r: u32)
        ensures
            r as int == be16(self@, self@.len() - 4) * 0x1_0000 + be16(self@, self@.len() - 2),
    {
        proof {
            use_type_invariant(self);
        }
        let n = self.packet.len();
        (read_be16(self.packet, n - 4) as u32) * 0x1_0000 + (read_be16(self.packet, n - 2) as u32)
    }
}

pub const ARP_FRAME_LEN: usize = 28;

#[derive(Debug, PartialEq, Eq, Structural)]
pub struct InvalidArpFrame(pub usize);

/// A view of an ARP message of at least 28 bytes in a caller's buffer.
pub struct ArpFrame<'a> {
    packet: &'a [u8],
}

impl<'a> View for ArpFrame<'a> {
    type V = Seq<u8>;

    closed spec fn view(&self) -> Seq<u8> {
        self.packet@
    }
}

pub open spec fn arp_htype(s: Seq<u8>) -> int {
    be16(s, 0)
}

pub open spec fn arp_ptype(s: Seq<u8>) -> int {
    be16(s, 2)
}

pub open spec fn arp_operation_code(s: Seq<u8>) -> int {
    be16(s, 6)
}

pub open spec fn arp_sender_hw(s: Seq<u8>) -> Seq<u8> {
    s.subrange(8, 14)
}

pub open spec fn arp_sender_proto(s: Seq<u8>) -> Seq<u8> {
    s.subrange(14, 18)
}

pub open spec fn arp_target_hw(s: Seq<u8>) -> Seq<u8> {
    s.subrange(18, 24)
}

pub open spec fn arp_target_proto(s: Seq<u8>) -> Seq<u8> {
    s.subrange(24, 28)
}

impl<'a> ArpFrame<'a> {
    #[verifier::type_invariant]
    closed spec fn inv(&self) -> bool {
        self.packet@.len() >= 28
    }

    pub fn new(packet: &'a [u8]) -> (r: Result<ArpFrame<'a>, InvalidArpFrame>)
        ensures
            r is Ok <==> packet@.len() >= 28,
            r matches Ok(f) ==> f@ == packet@,
            r matches Err(e) ==> e.0 == packet@.len(),
    {
        if packet.len() < ARP_FRAME_LEN {
            return Err(InvalidArpFrame(packet.len()));
        }
        Ok(ArpFrame { packet })
    }

    pub fn htype(&self) -> (r: u16)
        ensures
            r == arp_htype(self@),
    {
        proof {
            use_type_invariant(self);
        }
        read_be16(self.packet, 0)
    }

    pub fn ptype(&self) -> (r: u16)
        ensures
            r == arp_ptype(self@),
    {
        proof {
            use_type_invariant(self);
        }
        read_be16(self.packet, 2)
    }

    pub fn hardware_address_length(&self) -> (r: u8)
        ensures
            r == self@[4],
    {
        proof {
            use_type_invariant(self);
        }
        self.packet[4]
    }

    pub fn protocol_address_length(&self) -> (r: u8)
        ensures
            r == self@[5],
    {
        proof {
            use_type_invariant(self);
        }
        self.packet[5]
    }

    pub fn operation(&self) -> (r: Result<ArpOperation, UnknownArpOperation>)
        ensures
            r == arp_operation_of(arp_operation_code(self@) as u16),
    {
        proof {
            use_type_invariant(self);
        }
        ArpOperation::try_from(read_be16(self.packet, 6))
    }

    pub fn sender_hardware_address(&self) -> (r: &'a [u8])
        ensures
            r@ == arp_sender_hw(self@),
    {
        proof {
            use_type_invariant(self);
        }
        &self.packet[8..14]
    }

    pub fn sender_protocol_address(&self) -> (r: &'a [u8])
        ensures
            r@ == arp_sender_proto(self@),
    {
        proof {
            use_type_invariant(self);
        }
        &self.packet[14..18]
    }

    pub fn target_hardware_address(&self) -> (r: &'a [u8])
        ensures
            r@ == arp_target_hw(self@),
    {
        proof {
            use_type_invariant(self);
        }
        &self.packet[18..24]
    }

    pub fn target_protocol_address(&self) -> (r: &'a [u8])
        ensures
            r@ == arp_target_proto(self@),
    {
        proof {
            use_type_invariant(self);
        }
        &self.packet[24..28]
    }
}

#[derive(Debug, PartialEq, Eq, Clone, Copy, Structural)]
pub enum ArpOperation {
    Request,
    Reply,
}

#[derive(Debug, PartialEq, Eq, Clone, Copy, Structural)]
pub struct UnknownArpOperation(pub u16);

/// Wire code of an ARP operation.
pub open spec fn arp_operation_code_of(op: ArpOperation) -> u16 {
    match op {
        ArpOperation::Request => 1,
        ArpOperation::Reply => 2,
    }
}

/// Decoding of an operation code: total, with unknown codes surfaced.
pub open spec fn arp_operation_of(v: u16) -> Result<ArpOperation, UnknownArpOperation> {
    if v == 1 {
        Ok(ArpOperation::Request)
    } else if v == 2 {
        Ok(ArpOperation::Reply)
    } else {
        Err(UnknownArpOperation(v))
    }
}

impl ArpOperation {
    pub fn try_from(value: u16) -> (r: Result<ArpOperation, UnknownArpOperation>)
        ensures
            r == arp_operation_of(value),
    {
        match value {
            1 => Ok(ArpOperation::Request),
            2 => Ok(ArpOperation::Reply),
            v => Err(UnknownArpOperation(v)),
        }
    }

}

impl From<ArpOperation> for u16 {
    fn from(value: ArpOperation) -> (r: u16)
        ensures
            r == arp_operation_code_of(value),
    {
        match value {
            ArpOperation::Request => 1,
            ArpOperation::Reply => 2,
        }
    }
}

impl vstd::std_specs::convert::FromSpecImpl<ArpOperation> for u16 {
    open spec fn obeys_from_spec() -> bool {
        true
    }

    open spec fn from_spec(v: ArpOperation) -> u16 {
        arp_operation_code_of(v)
    }
}

pub struct ArpFrameParams {
    pub hardware_type: u16,
    pub protocol_type: u16,
    pub hardware_address_length: u8,
    pub protocol_address_length: u8,
    pub operation: ArpOperation,
    pub sender_hardware_address: [u8; 6],
    pub sender_protocol_address: [u8; 4],
    pub target_hardware_address: [u8; 6],
    pub target_protocol_address: [u8; 4],
}

/// An ARP message, fields in wire order, integers big-endian.
pub open spec fn arp_bytes_of(
    htype: u16,
    ptype: u16,
    hlen: u8,
    plen: u8,
    op: u16,
    sha: Seq<u8>,
    spa: Seq<u8>,
    tha: Seq<u8>,
    tpa: Seq<u8>,
) -> Seq<u8> {
    u16_be(htype) + u16_be(ptype) + seq![hlen] + seq![plen] + u16_be(op) + sha + spa + tha + tpa
}

/// The 28 bytes of the ARP message for `p`.
pub open spec fn arp_bytes(p: ArpFrameParams) -> Seq<u8> {
    arp_bytes_of(
        p.hardware_type,
        p.protocol_type,
        p.hardware_address_length,
        p.protocol_address_length,
        arp_operation_code_of(p.operation),
        p.sender_hardware_address@,
        p.sender_protocol_address@,
        p.target_hardware_address@,
        p.target_protocol_address@,
    )
}

/// The fields of `p` are those that ARP message `s` carries.
pub open spec fn arp_decodes_to(s: Seq<u8>, p: ArpFrameParams) -> bool {
    &&& s.len() >= 28
    &&& arp_htype(s) == p.hardware_type
    &&& arp_ptype(s) == p.protocol_type
    &&& s[4] == p.hardware_address_length
    &&& s[5] == p.protocol_address_length
    &&& arp_operation_of(arp_operation_code(s) as u16) == Ok::<ArpOperation, UnknownArpOperation>(p.operation)
    &&& arp_sender_hw(s) == p.sender_hardware_address@
    &&& arp_sender_proto(s) == p.sender_protocol_address@
    &&& arp_target_hw(s) == p.target_hardware_address@
    &&& arp_target_proto(s) == p.target_protocol_address@
}

impl ArpFrameParams {
    pub fn try_from(arp_frame: &ArpFrame<'_>) -> (r: Result<ArpFrameParams, UnknownArpOperation>)
        ensures
            r is Ok <==> arp_operation_of(arp_operation_code(arp_frame@) as u16) is Ok,
            r matches Ok(p) ==> arp_decodes_to(arp_frame@, p),
            r matches Err(e) ==> e.0 == arp_operation_code(arp_frame@),
    {
        proof {
            use_type_invariant(arp_frame);
        }
        let operation = match arp_frame.operation() {
            Ok(op) => op,
            Err(e) => return Err(e),
        };
        let p = arp_frame.packet;
        let r = ArpFrameParams {
            hardware_type: arp_frame.htype(),
            protocol_type: arp_frame.ptype(),
            hardware_address_length: arp_frame.hardware_address_length(),
            protocol_address_length: arp_frame.protocol_address_length(),
            operation,
            sender_hardware_address: [p[8], p[9], p[10], p[11], p[12], p[13]],
            sender_protocol_address: [p[14], p[15], p[16], p[17]],
            target_hardware_address: [p[18], p[19], p[20], p[21], p[22], p[23]],
            target_protocol_address: [p[24], p[25], p[26], p[27]],
        };
        proof {
            assert(arp_sender_hw(arp_frame@) =~= r.sender_hardware_address@);
            assert(arp_sender_proto(arp_frame@) =~= r.sender_protocol_address@);
            assert(arp_target_hw(arp_frame@) =~= r.target_hardware_address@);
            assert(arp_target_proto(arp_frame@) =~= r.target_protocol_address@);
        }
        Ok(r)
    }
}

pub fn generate_arp_frame(params: &ArpFrameParams) -> (r: Vec<u8>)
    ensures
        r@ == arp_bytes(*params),
        r@.len() == 28,
{
    let mut ret: Vec<u8> = Vec::with_capacity(ARP_FRAME_LEN);
    push_u16_be(&mut ret, params.hardware_type);
    push_u16_be(&mut ret, params.protocol_type);
    ret.push(params.hardware_address_length);
    ret.push(params.protocol_address_length);
    push_u16_be(&mut ret, u16::from(params.operation));
    push_bytes(&mut ret, &params.sender_hardware_address);
    push_bytes(&mut ret, &params.sender_protocol_address);
    push_bytes(&mut ret, &params.target_hardware_address);
    push_bytes(&mut ret, &params.target_protocol_address);
    proof {
        assert(ret@ =~= arp_bytes(*params));
    }
    ret
}

#[derive(Debug, PartialEq, Eq, Structural)]
pub struct InvalidIpv4Frame;

/// Header length field, in 32-bit words: the low nibble of the first byte.
pub open spec fn ipv4_ihl(s: Seq<u8>) -> int {
    s[0] as int % 16
}

/// Non-empty, and the declared header fits in the buffer.
pub open spec fn ipv4_valid(s: Seq<u8>) -> bool {
    s.len() > 0 && ipv4_ihl(s) * 4 <= s.len()
}

#[derive(Debug, PartialEq, Eq, Clone, Copy, Structural)]
pub enum Ipv4Protocol {
    Udp,
    Unknown(u8),
}

pub open spec fn ipv4_protocol_of(b: u8) -> Ipv4Protocol {
    if b == 0x11 {
        Ipv4Protocol::Udp
    } else {
        Ipv4Protocol::Unknown(b)
    }
}

/// A view of an IPv4 packet whose header length fits its buffer.
pub struct Ipv4Frame<'a> {
    packet: &'a [u8],
}

impl<'a> View for Ipv4Frame<'a> {
    type V = Seq<u8>;

    closed spec fn view(&self) -> Seq<u8> {
        self.packet@
    }
}

impl<'a> Ipv4Frame<'a> {
    #[verifier::type_invariant]
    closed spec fn inv(&self) -> bool {
        ipv4_valid(self.packet@)
    }

    pub fn new(packet: &'a [u8]) -> (r: Result<Ipv4Frame<'a>, InvalidIpv4Frame>)
        ensures
            r is Ok <==> ipv4_valid(packet@),
            r matches Ok(f) ==> f@ == packet@,
    {
        if packet.len() == 0 || ((packet[0] % 16) as usize) * 4 > packet.len() {
            return Err(InvalidIpv4Frame);
        }
        Ok(Ipv4Frame { packet })
    }

    pub fn ihl(&self) -> (r: u8)
        ensures
            r == ipv4_ihl(self@),
    {
        proof {
            use_type_invariant(self);
        }
        self.packet[0] % 16
    }

    /// Header length in bytes.
    pub fn length(&self) -> (r: usize)
        ensures
            r == ipv4_ihl(self@) * 4,
            r <= self@.len(),
    {
        proof {
            use_type_invariant(self);
        }
        (self.ihl() as usize) * 4
    }

    /// Length of the whole packet.
    pub fn buffer_len(&self) -> (r: usize)
        ensures
            r == self@.len(),
    {
        self.packet.len()
    }

    /// Byte 9 decoded; the header must reach it.
    pub fn protocol(&self) -> (r: Ipv4Protocol)
        requires
            self@.len() >= 10,
        ensures
            r == ipv4_protocol_of(self@[9]),
    {
        match self.packet[9] {
            0x11 => Ipv4Protocol::Udp,
            v => Ipv4Protocol::Unknown(v),
        }
    }

    /// Bytes 12 to 15; the header must reach them.
    pub fn source_ip(&self) -> (r: [u8; 4])
        requires
            self@.len() >= 16,
        ensures
            r@ == self@.subrange(12, 16),
    {
        let p = self.packet;
        let r = [p[12], p[13], p[14], p[15]];
        proof {
            assert(r@ =~= self@.subrange(12, 16));
        }
        r
    }

    pub fn payload(&self) -> (r: &'a [u8])
        ensures
            r@ == self@.subrange(ipv4_ihl(self@) * 4, self@.len() as int),
    {
        let start = self.length();
        &self.packet[start..self.packet.len()]
    }
}

pub const UDP_HEADER_LENGTH: usize = 8;

/// Buffer length and declared length (0 where the buffer is too short to declare one).
#[derive(Debug, PartialEq, Eq, Structural)]
pub struct InvalidUdpFrame(pub usize, pub usize);

pub open spec fn udp_length(s: Seq<u8>) -> int {
    be16(s, 4)
}

/// A header, and a declared length that covers it and fits the buffer.
pub open spec fn udp_valid(s: Seq<u8>) -> bool {
    s.len() >= 8 && 8 <= udp_length(s) <= s.len()
}

/// A view of a UDP datagram in a caller's buffer.
pub struct UdpFrame<'a> {
    packet: &'a [u8],
}

impl<'a> View for UdpFrame<'a> {
    type V = Seq<u8>;

    closed spec fn view(&self) -> Seq<u8> {
        self.packet@
    }
}

impl<'a> UdpFrame<'a> {
    #[verifier::type_invariant]
    closed spec fn inv(&self) -> bool {
        udp_valid(self.packet@)
    }

    pub fn new(packet: &'a [u8]) -> (r: Result<UdpFrame<'a>, InvalidUdpFrame>)
        ensures
            r is Ok <==> udp_valid(packet@),
            r matches Ok(f) ==> f@ == packet@,
            r matches Err(e) ==> e.0 == packet@.len() && (packet@.len() >= 6 ==> e.1 == udp_length(packet@))
                && (packet@.len() < 6 ==> e.1 == 0),
    {
        if packet.len() < 6 {
            return Err(InvalidUdpFrame(packet.len(), 0));
        }
        let declared = read_be16(packet, 4) as usize;
        if packet.len() < UDP_HEADER_LENGTH || declared < UDP_HEADER_LENGTH || packet.len() < declared {
            return Err(InvalidUdpFrame(packet.len(), declared));
        }
        Ok(UdpFrame { packet })
    }

    /// Declared length, header included.
    pub fn length(&self) -> (r: u16)
        ensures
            r == udp_length(self@),
    {
        proof {
            use_type_invariant(self);
        }
        read_be16(self.packet, 4)
    }

    pub fn data(&self) -> (r: &'a [u8])
        ensures
            r@ == self@.subrange(8, udp_length(self@)),
    {
        proof {
            use_type_invariant(self);
        }
        let end = self.length() as usize;
        &self.packet[UDP_HEADER_LENGTH..end]
    }
}

#[derive(Debug, PartialEq, Eq, Structural)]
pub enum ParsePacketError {
    Ethernet(InvalidEthernetFrame),
    Arp(InvalidArpFrame),
    Ipv4(InvalidIpv4Frame),
}

pub enum ParsedPacket<'a> {
    Arp(ArpFrame<'a>),
    Ipv4(Ipv4Frame<'a>),
    Unknown(u16),
}

pub const ETHER_TYPE_ARP: u16 = 0x0806;

pub const ETHER_TYPE_IPV4: u16 = 0x0800;

/// Whether `data` parses as an Ethernet frame carrying a well-formed ARP message.
pub open spec fn parses_as_arp(data: Seq<u8>) -> bool {
    eth_valid(data) && eth_ether_type(data) == ETHER_TYPE_ARP && eth_payload(data).len() >= 28
}

/// Parses the Ethernet frame, then its payload by ether type.
pub fn parse_packet(data: &[u8]) -> (r: Result<ParsedPacket<'_>, ParsePacketError>)
    ensures
        r matches Err(ParsePacketError::Ethernet(_)) <==> !eth_valid(data@),
        r matches Err(ParsePacketError::Arp(e)) <==> eth_valid(data@) && eth_ether_type(data@)
            == ETHER_TYPE_ARP && eth_payload(data@).len() < 28,
        r matches Err(ParsePacketError::Arp(e)) ==> e.0 == eth_payload(data@).len(),
        r matches Err(ParsePacketError::Ipv4(_)) <==> eth_valid(data@) && eth_ether_type(data@)
            == ETHER_TYPE_IPV4 && !ipv4_valid(eth_payload(data@)),
        r matches Ok(ParsedPacket::Arp(a)) <==> parses_as_arp(data@),
        r matches Ok(ParsedPacket::Arp(a)) ==> a@ == eth_payload(data@),
        r matches Ok(ParsedPacket::Ipv4(f)) <==> eth_valid(data@) && eth_ether_type(data@)
            == ETHER_TYPE_IPV4 && ipv4_valid(eth_payload(data@)),
        r matches Ok(ParsedPacket::Ipv4(f)) ==> f@ == eth_payload(data@),
        r matches Ok(ParsedPacket::Unknown(t)) <==> eth_valid(data@) && eth_ether_type(data@)
            != ETHER_TYPE_ARP && eth_ether_type(data@) != ETHER_TYPE_IPV4,
        r matches Ok(ParsedPacket::Unknown(t)) ==> t == eth_ether_type(data@),
{
    let frame = match EthernetFrame::new(data) {
        Ok(f) => f,
        Err(e) => return Err(ParsePacketError::Ethernet(e)),
    };
    let payload = frame.payload();
    let t = frame.ether_type();
    if t == ETHER_TYPE_ARP {
        match ArpFrame::new(payload) {
            Ok(a) => Ok(ParsedPacket::Arp(a)),
            Err(e) => Err(ParsePacketError::Arp(e)),
        }
    } else if t == ETHER_TYPE_IPV4 {
        match Ipv4Frame::new(payload) {
            Ok(f) => Ok(ParsedPacket::Ipv4(f)),
            Err(e) => Err(ParsePacketError::Ipv4(e)),
        }
    } else {
        Ok(ParsedPacket::Unknown(t))
    }
}

pub enum ParsedIpv4Frame<'a> {
    Udp(UdpFrame<'a>),
    Unknown(Ipv4Protocol),
}

/// Dispatches an IPv4 packet on its protocol byte; the header must reach it.
pub fn parse_ipv4<'a>(frame: &Ipv4Frame<'a>) -> (r: Result<ParsedIpv4Frame<'a>, InvalidUdpFrame>)
    requires
        frame@.len() >= 10,
    ensures
        r matches Ok(ParsedIpv4Frame::Udp(u)) <==> frame@[9] == 0x11 && udp_valid(
            frame@.subrange(ipv4_ihl(frame@) * 4, frame@.len() as int),
        ),
        r matches Ok(ParsedIpv4Frame::Udp(u)) ==> u@ == frame@.subrange(
            ipv4_ihl(frame@) * 4,
            frame@.len() as int,
        ),
        r is Err <==> frame@[9] == 0x11 && !udp_valid(
            frame@.subrange(ipv4_ihl(frame@) * 4, frame@.len() as int),
        ),
        r matches Err(e) ==> ({
            let u = frame@.subrange(ipv4_ihl(frame@) * 4, frame@.len() as int);
            &&& e.0 == u.len()
            &&& u.len() >= 6 ==> e.1 == udp_length(u)
            &&& u.len() < 6 ==> e.1 == 0
        }),
        r matches Ok(ParsedIpv4Frame::Unknown(p)) <==> frame@[9] != 0x11,
        r matches Ok(ParsedIpv4Frame::Unknown(p)) ==> p == ipv4_protocol_of(frame@[9]),
{
    match frame.protocol() {
        Ipv4Protocol::Udp => match UdpFrame::new(frame.payload()) {
            Ok(u) => Ok(ParsedIpv4Frame::Udp(u)),
            Err(e) => Err(e),
        },
        p => Ok(ParsedIpv4Frame::Unknown(p)),
    }
}

proof fn lemma_be16_of_u16_be(x: u16)
    ensures
        be16(u16_be(x), 0) == x,
{
    assert((x / 256) as u8 as int * 256 + (x % 256) as u8 as int == x) by (nonlinear_arith);
}

/// An ARP message built from `p` and framed for Ethernet with the ARP ether type
/// parses back as ARP, and the message it yields decodes to the fields of `p`.
pub proof fn lemma_arp_in_ethernet_round_trip(params: EthernetFrameParams, p: ArpFrameParams)
    requires
        params.ether_type == ETHER_TYPE_ARP,
        params.payload@ == arp_bytes(p),
    ensures
        parses_as_arp(ethernet_frame_bytes(params)),
        arp_decodes_to(eth_payload(ethernet_frame_bytes(params)), p),
{
    let head = params.dest_mac@ + params.source_mac@ + u16_be(params.ether_type);
    let a = arp_bytes(p);
    let body = ethernet_body(params);
    let f = ethernet_frame_bytes(params);
    assert(head.len() == 14);
    assert(body =~= head + a + Seq::new(18, |i: int| 0u8));
    assert(f.len() == 64);
    assert(f[12] == 8 && f[13] == 6);
    assert(!eth_has_dot1q(f));
    let payload = eth_payload(f);
    assert(payload.subrange(0, 28) =~= a);
    lemma_be16_of_u16_be(params.ether_type);
    lemma_be16_of_u16_be(p.hardware_type);
    lemma_be16_of_u16_be(p.protocol_type);
    lemma_be16_of_u16_be(arp_operation_code_of(p.operation));
    assert(a.subrange(0, 2) =~= u16_be(p.hardware_type));
    assert(a.subrange(2, 4) =~= u16_be(p.protocol_type));
    assert(a.subrange(6, 8) =~= u16_be(arp_operation_code_of(p.operation)));
    assert(arp_htype(payload) == be16(a.subrange(0, 2), 0));
    assert(arp_ptype(payload) == be16(a.subrange(2, 4), 0));
    assert(arp_operation_code(payload) == be16(a.subrange(6, 8), 0));
    assert(arp_sender_hw(payload) =~= p.sender_hardware_address@);
    assert(arp_sender_proto(payload) =~= p.sender_protocol_address@);
    assert(arp_target_hw(payload) =~= p.target_hardware_address@);
    assert(arp_target_proto(payload) =~= p.target_protocol_address@);
}

} // verus!
