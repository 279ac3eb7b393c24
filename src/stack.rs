//! The kernel's side of the network: the table of learned hardware addresses, and
//! what to do with each received frame.
use vstd::prelude::*;
use crate::mutex::{lemma_fifo_handoff, mutex_wf, released_n, Mutex, MutexView};
use crate::net::{
    arp_bytes_of, arp_htype, arp_operation_code, arp_ptype, arp_sender_hw, arp_sender_proto,
    arp_target_hw, arp_target_proto, eth_ether_type, eth_payload, eth_valid, ethernet_frame_of,
    generate_arp_frame, generate_ethernet_frame, ipv4_ihl, ipv4_valid, parse_ipv4, parse_packet,
    parses_as_arp, udp_length, udp_valid, ArpFrame, ArpFrameParams, ArpOperation,
    EthernetFrameParams, ParsedIpv4Frame, ParsedPacket, ETHER_TYPE_ARP, ETHER_TYPE_IPV4,
};

verus! {

/// This host's IPv4 address.
pub const STATIC_IP: [u8; 4] = [192, 168, 2, 2];

/// What an `IpMacMap` holds: hardware address by IPv4 key.
pub uninterp spec fn ip_mac_entries(m: IpMacMap) -> Map<u32, Seq<u8>>;

pub open spec fn no_entries() -> Map<u32, Seq<u8>> {
    Map::empty()
}

/// A `hashbrown::HashMap` from IPv4 addresses, as integers, to hardware addresses.
/// Its contents are seen only through `ip_mac_entries`, as its methods state them.
#[verifier::external_body]
pub struct IpMacMap {
    inner: hashbrown::HashMap<u32, [u8; 6]>,
}

impl IpMacMap {
    /// Relies on hashbrown::HashMap::new: a new map holds no entry.
    #[verifier::external_body]
    fn new() -> (r: IpMacMap)
        ensures
            ip_mac_entries(r) == no_entries(),
    {
        IpMacMap { inner: hashbrown::HashMap::new() }
    }

    /// Relies on hashbrown::HashMap::insert: afterwards `k` maps to `v`, and every
    /// other key to what it mapped to before.
    #[verifier::external_body]
    fn insert(&mut self, k: u32, v: [u8; 6])
        ensures
            ip_mac_entries(*final(self)) == ip_mac_entries(*old(self)).insert(k, v@),
    {
        self.inner.insert(k, v);
    }

    /// Relies on hashbrown::HashMap::get: the value stored under `k`, if any.
    #[verifier::external_body]
    fn get(&self, k: u32) -> (r: Option<[u8; 6]>)
        ensures
            r is Some <==> ip_mac_entries(*self).contains_key(k),
            r matches Some(v) ==> v@ == ip_mac_entries(*self)[k],
    {
        self.inner.get(&k).copied()
    }
}

/// An IPv4 address as a big-endian integer.
pub open spec fn ip_key(ip: Seq<u8>) -> u32 {
    (ip[0] as int * 0x100_0000 + ip[1] as int * 0x1_0000 + ip[2] as int * 0x100 + ip[3] as int) as u32
}

fn ip_key_of(ip: &[u8; 4]) -> (r: u32)
    ensures
        r == ip_key(ip@),
{
    (ip[0] as u32) * 0x100_0000 + (ip[1] as u32) * 0x1_0000 + (ip[2] as u32) * 0x100 + (ip[3] as u32)
}

/// Learned IPv4-to-hardware address mappings. Entries are never evicted.
pub struct ArpTable {
    table: IpMacMap,
}

impl ArpTable {
    pub closed spec fn entries(&self) -> Map<u32, Seq<u8>> {
        ip_mac_entries(self.table)
    }

    pub fn new() -> (r: ArpTable)
        ensures
            r.entries() == no_entries(),
    {
        ArpTable { table: IpMacMap::new() }
    }

    pub fn write_mac(&mut self, ip: &[u8; 4], mac: &[u8; 6])
        ensures
            final(self).entries() == old(self).entries().insert(ip_key(ip@), mac@),
    {
        let k = ip_key_of(ip);
        self.table.insert(k, *mac);
    }

    /// The hardware address learned for `ip`; a waiter polls this until it is there.
    pub fn lookup(&self, ip: &[u8; 4]) -> (r: Option<[u8; 6]>)
        ensures
            r is Some <==> self.entries().contains_key(ip_key(ip@)),
            r matches Some(m) ==> m@ == self.entries()[ip_key(ip@)],
    {
        let k = ip_key_of(ip);
        self.table.get(k)
    }
}

/// Records a learned mapping in a table shared behind a lock; only the lock's holder may.
pub fn write_mac_held(table: &mut Mutex<ArpTable>, task: u64, ip: &[u8; 4], mac: &[u8; 6])
    requires
        old(table)@.0 == Some(task),
    ensures
        final(table)@ == old(table)@,
        final(table).value().entries() == old(table).value().entries().insert(ip_key(ip@), mac@),
{
    table.get_mut(task).write_mac(ip, mac);
}

/// Looks up `ip` in a table shared behind a lock; only the lock's holder may.
pub fn lookup_held(table: &Mutex<ArpTable>, task: u64, ip: &[u8; 4]) -> (r: Option<[u8; 6]>)
    requires
        table@.0 == Some(task),
    ensures
        r is Some <==> table.value().entries().contains_key(ip_key(ip@)),
        r matches Some(m) ==> m@ == table.value().entries()[ip_key(ip@)],
{
    table.get(task).lookup(ip)
}

/// Two writers of one address queued on the table's lock, at places `i < j`: the lock
/// reaches the first before the second, and after both writes the address maps to
/// the second writer's hardware address, every other key unchanged.
pub proof fn lemma_queued_writes_in_order(
    m: MutexView,
    i: int,
    j: int,
    entries: Map<u32, Seq<u8>>,
    key: u32,
    first_mac: Seq<u8>,
    second_mac: Seq<u8>,
)
    requires
        mutex_wf(m),
        0 <= i < j < m.1.len(),
    ensures
        released_n(m, (i + 1) as nat).0 == Some(m.1[i]),
        released_n(m, (j + 1) as nat).0 == Some(m.1[j]),
        entries.insert(key, first_mac).insert(key, second_mac) == entries.insert(key, second_mac),
{
    lemma_fifo_handoff(m, i);
    lemma_fifo_handoff(m, j);
    assert(entries.insert(key, first_mac).insert(key, second_mac) =~= entries.insert(key, second_mac));
}

/// The reply to ARP request `f` from the host at `mac` and `ip`: addresses swapped,
/// operation Reply, framed back to the requester.
pub open spec fn arp_reply_frame(f: Seq<u8>, mac: Seq<u8>, ip: Seq<u8>) -> Seq<u8> {
    ethernet_frame_of(
        arp_sender_hw(f),
        mac,
        ETHER_TYPE_ARP,
        arp_bytes_of(
            arp_htype(f) as u16,
            arp_ptype(f) as u16,
            f[4],
            f[5],
            2,
            mac,
            ip,
            arp_sender_hw(f),
            arp_sender_proto(f),
        ),
    )
}

/// A request asks for this host: by its hardware address or its IPv4 address.
pub open spec fn arp_request_for_us(f: Seq<u8>, mac: Seq<u8>) -> bool {
    arp_target_hw(f) == mac || arp_target_proto(f) == STATIC_IP@
}

/// What the ARP layer does with message `f`: learn from a reply, answer a request
/// for this host, ignore the rest.
pub open spec fn arp_outcome(
    f: Seq<u8>,
    mac: Seq<u8>,
    before: Map<u32, Seq<u8>>,
    after: Map<u32, Seq<u8>>,
    reply: Option<Seq<u8>>,
) -> bool {
    if arp_operation_code(f) == 2 {
        after == before.insert(ip_key(arp_sender_proto(f)), arp_sender_hw(f)) && reply is None
    } else if arp_operation_code(f) == 1 && arp_request_for_us(f, mac) {
        after == before && reply == Some(arp_reply_frame(f, mac, STATIC_IP@))
    } else {
        after == before && reply is None
    }
}

fn bytes_equal(a: &[u8], b: &[u8]) -> (r: bool)
    ensures
        r <==> a@ == b@,
{
    if a.len() != b.len() {
        return false;
    }
    let mut i: usize = 0;
    while i < a.len()
        invariant
            a@.len() == b@.len(),
            i <= a@.len(),
            forall|k: int| 0 <= k < i ==> a@[k] == b@[k],
        decreases a@.len() - i,
    {
        if a[i] != b[i] {
            return false;
        }
        i = i + 1;
    }
    proof {
        assert(a@ =~= b@);
    }
    true
}

/// Handles an ARP message addressed to the host at `mac`, returning the frame to send back, if any.
pub fn handle_arp_frame(arp_frame: &ArpFrame<'_>, mac: &[u8; 6], arp_table: &mut ArpTable) -> (r: Option<Vec<u8>>)
    ensures
        arp_outcome(
            arp_frame@,
            mac@,
            old(arp_table).entries(),
            final(arp_table).entries(),
            match r {
                Some(v) => Some(v@),
                None => None,
            },
        ),
{
    let params = match ArpFrameParams::try_from(arp_frame) {
        Ok(p) => p,
        Err(_) => return None,
    };
    match params.operation {
        ArpOperation::Reply => {
            arp_table.write_mac(&params.sender_protocol_address, &params.sender_hardware_address);
            return None;
        },
        ArpOperation::Request => {},
    }
    if !bytes_equal(arp_frame.target_hardware_address(), mac) && !bytes_equal(
        arp_frame.target_protocol_address(),
        &STATIC_IP,
    ) {
        return None;
    }
    let requester_mac = params.sender_hardware_address;
    let reply = ArpFrameParams {
        hardware_type: params.hardware_type,
        protocol_type: params.protocol_type,
        hardware_address_length: params.hardware_address_length,
        protocol_address_length: params.protocol_address_length,
        operation: ArpOperation::Reply,
        sender_hardware_address: *mac,
        sender_protocol_address: STATIC_IP,
        target_hardware_address: params.sender_hardware_address,
        target_protocol_address: params.sender_protocol_address,
    };
    let response = generate_arp_frame(&reply);
    let frame = generate_ethernet_frame(
        &EthernetFrameParams {
            dest_mac: requester_mac,
            source_mac: *mac,
            ether_type: ETHER_TYPE_ARP,
            payload: response.as_slice(),
        },
    );
    Some(frame)
}

/// What the receive loop does with a frame.
pub enum PacketAction {
    /// Nothing: malformed, not for this host, or nothing to answer.
    Ignore,
    /// Transmit these bytes.
    Send(Vec<u8>),
    /// Leave the kernel with this exit code.
    Exit(u8),
}

/// The payload that asks the kernel to exit.
pub open spec fn exit_request() -> Seq<u8> {
    seq![0x65u8, 0x78, 0x69, 0x74, 0x0a]
}

/// A UDP datagram over IPv4 whose data is the exit request.
pub open spec fn is_exit_datagram(p: Seq<u8>) -> bool {
    let ip = eth_payload(p);
    let udp = ip.subrange(ipv4_ihl(ip) * 4, ip.len() as int);
    &&& eth_valid(p)
    &&& eth_ether_type(p) == ETHER_TYPE_IPV4
    &&& ipv4_valid(ip)
    &&& ip.len() >= 10
    &&& ip[9] == 0x11
    &&& udp_valid(udp)
    &&& udp.subrange(8, udp_length(udp)) == exit_request()
}

/// Handles one received frame for the host at `mac`: ARP as `arp_outcome` says,
/// the exit request, and nothing else.
pub fn handle_packet(packet: &[u8], mac: &[u8; 6], arp_table: &mut ArpTable) -> (r: PacketAction)
    ensures
        parses_as_arp(packet@) ==> arp_outcome(
            eth_payload(packet@),
            mac@,
            old(arp_table).entries(),
            final(arp_table).entries(),
            match r {
                PacketAction::Send(v) => Some(v@),
                _ => None,
            },
        ) && !(r is Exit),
        !parses_as_arp(packet@) ==> final(arp_table).entries() == old(arp_table).entries() && !(r is Send)
            && (r is Exit <==> is_exit_datagram(packet@)) && (r matches PacketAction::Exit(c) ==> c == 0),
{
    let parsed = match parse_packet(packet) {
        Ok(p) => p,
        Err(_) => return PacketAction::Ignore,
    };
    match parsed {
        ParsedPacket::Arp(arp_frame) => match handle_arp_frame(&arp_frame, mac, arp_table) {
            Some(frame) => PacketAction::Send(frame),
            None => PacketAction::Ignore,
        },
        ParsedPacket::Ipv4(ipv4_frame) => {
            if ipv4_frame.buffer_len() < 10 {
                return PacketAction::Ignore;
            }
            match parse_ipv4(&ipv4_frame) {
                Ok(ParsedIpv4Frame::Udp(udp_frame)) => {
                    let exit: [u8; 5] = [0x65, 0x78, 0x69, 0x74, 0x0a];
                    proof {
                        assert(exit@ =~= exit_request());
                    }
                    if bytes_equal(udp_frame.data(), &exit) {
                        PacketAction::Exit(0)
                    } else {
                        PacketAction::Ignore
                    }
                },
                _ => PacketAction::Ignore,
            }
        },
        ParsedPacket::Unknown(_) => PacketAction::Ignore,
    }
}

} // verus!
