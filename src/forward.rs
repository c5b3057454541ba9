use vstd::prelude::*;

use crate::addr::Endpoint;
use crate::device::{is_benign, DeviceError, Platform};
use crate::node_map::{
    is_listing, lemma_listing_rebuilds, next_generation, upsert_all_spec, NodeEntry, NodeMap,
};
use crate::wire::{
    decode_snapshot, decode_snapshot_spec, encode_snapshot, lemma_snapshot_round_trip,
    snapshot_bytes, SNAPSHOT,
};
use crate::packet::{ipv4_destination, ipv4_destination_of, ipv4_header_ok, read_word, word_at};

verus! {

/// A ciphertext that did not decrypt: tampered, truncated or under another key.
#[derive(Clone, Copy, Debug, PartialEq, Eq, Structural)]
pub struct IntegrityError;

/// What to do with a packet read from the virtual interface.
#[derive(Clone, Copy, Debug, PartialEq, Eq, Structural)]
pub enum Egress {
    /// Encrypt the packet and send it once to this endpoint.
    Send { endpoint: Endpoint },
    /// No peer is known for the destination: drop the packet.
    RoutingMiss { destination: u32 },
    /// The IPv4 header is undersized or unparsable: drop the packet.
    Malformed,
}

/// What to do with a datagram received from the transport.
#[derive(Debug)]
pub enum Ingress {
    /// Write this plaintext packet into the virtual interface.
    Deliver(Vec<u8>),
    /// Decryption failed: drop the datagram.
    IntegrityFailure,
    /// A node-map snapshot from the server replaced the cache.
    MapRefreshed,
    /// The plaintext is neither an IPv4 packet nor a valid snapshot: drop it.
    Malformed,
}

/// Whether a forwarding loop goes on after an interface error.
#[derive(Clone, Copy, Debug, PartialEq, Eq, Structural)]
pub enum LoopControl {
    Continue,
    Stop,
}

/// What the server does with one datagram from the transport.
#[derive(Clone, Copy, Debug, PartialEq, Eq, Structural)]
pub enum ServerAction {
    /// A keepalive bound its claimed address to the sender: this entry.
    Registered(NodeEntry),
    /// A relayed packet: the routing decision for it.
    Forward(Egress),
    /// A keepalive too short to name an address: dropped.
    Malformed,
    /// Decryption failed: dropped.
    IntegrityFailure,
}

/// Event counts kept by a forwarding engine; each holds at the largest value.
#[derive(Clone, Copy, Debug, PartialEq, Eq, Structural)]
pub struct Counters {
    pub sent: u64,
    pub routing_misses: u64,
    pub malformed: u64,
    pub integrity_failures: u64,
    pub delivered: u64,
    pub registrations: u64,
    pub snapshots: u64,
}

/// `x + 1`, held at `u64::MAX`.
pub open spec fn bump(x: u64) -> u64 {
    if x == u64::MAX {
        x
    } else {
        (x + 1) as u64
    }
}

/// The routing decision for packet `p` under node map `m`.
pub open spec fn egress_spec(m: Map<u32, NodeEntry>, p: Seq<u8>) -> Egress {
    if !ipv4_header_ok(p) {
        Egress::Malformed
    } else if m.contains_key(ipv4_destination_of(p)) {
        Egress::Send { endpoint: m[ipv4_destination_of(p)].endpoint }
    } else {
        Egress::RoutingMiss { destination: ipv4_destination_of(p) }
    }
}

/// The counters after an egress decision `e`.
pub open spec fn count_egress(c: Counters, e: Egress) -> Counters {
    match e {
        Egress::Send { .. } => Counters { sent: bump(c.sent), ..c },
        Egress::RoutingMiss { .. } => Counters { routing_misses: bump(c.routing_misses), ..c },
        Egress::Malformed => Counters { malformed: bump(c.malformed), ..c },
    }
}

/// The counters after an ingress decision `i`.
pub open spec fn count_ingress(c: Counters, i: Ingress) -> Counters {
    match i {
        Ingress::Deliver(_) => Counters { delivered: bump(c.delivered), ..c },
        Ingress::IntegrityFailure => Counters {
            integrity_failures: bump(c.integrity_failures),
            ..c
        },
        Ingress::MapRefreshed => Counters { snapshots: bump(c.snapshots), ..c },
        Ingress::Malformed => Counters { malformed: bump(c.malformed), ..c },
    }
}

/// The ingress decision for a decryption result: only a plaintext with a
/// well-formed IPv4 header reaches the interface, unchanged.
pub open spec fn ingress_ok(d: Result<Vec<u8>, IntegrityError>, r: Ingress) -> bool {
    match d {
        Err(_) => r is IntegrityFailure,
        Ok(p) => if ipv4_header_ok(p@) {
            r is Deliver && r->Deliver_0@ == p@
        } else {
            r is Malformed
        },
    }
}

/// Whether a decrypted datagram is a node-map snapshot message.
pub open spec fn is_snapshot_message(d: Result<Vec<u8>, IntegrityError>) -> bool {
    d is Ok && d->Ok_0@.len() > 0 && d->Ok_0@[0] == SNAPSHOT
}

/// The cache a client builds from the entries of a snapshot.
pub open spec fn snapshot_map(s: Seq<NodeEntry>) -> Map<u32, NodeEntry> {
    upsert_all_spec(Map::empty(), s)
}

/// All counts zero.
pub open spec fn zero_counters() -> Counters {
    Counters {
        sent: 0,
        routing_misses: 0,
        malformed: 0,
        integrity_failures: 0,
        delivered: 0,
        registrations: 0,
        snapshots: 0,
    }
}

/// A client that installs a snapshot message listing the server's map holds
/// exactly that map: the message decodes to the listing it was built from, and
/// the cache rebuilt from the listing equals the map.
pub proof fn lemma_snapshot_installs_server_map(s: Seq<NodeEntry>, m: Map<u32, NodeEntry>)
    requires
        is_listing(s, m),
    ensures
        decode_snapshot_spec(snapshot_bytes(s)) == Some(s),
        snapshot_map(s) == m,
{
    lemma_snapshot_round_trip(s);
    lemma_listing_rebuilds(s, m);
}

/// `x + 1`, held at `u64::MAX`.
fn incr(x: u64) -> (r: u64)
    ensures
        r == bump(x),
{
    x.saturating_add(1)
}

impl Counters {
    /// All counts zero.
    pub fn new() -> (r: Counters)
        ensures
            r == zero_counters(),
    {
        Counters {
            sent: 0,
            routing_misses: 0,
            malformed: 0,
            integrity_failures: 0,
            delivered: 0,
            registrations: 0,
        snapshots: 0,
        }
    }

    /// Counts an egress decision.
    pub fn record_egress(&mut self, e: Egress)
        ensures
            *final(self) == count_egress(*old(self), e),
    {
        match e {
            Egress::Send { .. } => self.sent = incr(self.sent),
            Egress::RoutingMiss { .. } => self.routing_misses = incr(self.routing_misses),
            Egress::Malformed => self.malformed = incr(self.malformed),
        }
    }

    /// Counts an ingress decision.
    pub fn record_ingress(&mut self, i: &Ingress)
        ensures
            *final(self) == count_ingress(*old(self), *i),
    {
        match i {
            Ingress::Deliver(_) => self.delivered = incr(self.delivered),
            Ingress::IntegrityFailure => self.integrity_failures = incr(self.integrity_failures),
            Ingress::MapRefreshed => self.snapshots = incr(self.snapshots),
            Ingress::Malformed => self.malformed = incr(self.malformed),
        }
    }
}

/// Decides where a packet read from the interface goes: to the endpoint bound
/// to its destination address, or nowhere.
pub fn route_egress(map: &NodeMap, packet: &[u8]) -> (r: Egress)
    requires
        map.wf(),
    ensures
        r == egress_spec(map@, packet@),
{
    match ipv4_destination(packet) {
        None => Egress::Malformed,
        Some(dst) => match map.lookup(dst) {
            Some(endpoint) => Egress::Send { endpoint },
            None => Egress::RoutingMiss { destination: dst },
        },
    }
}

/// Decides what becomes of a datagram given what decrypting it returned. A
/// failed decryption never reaches the interface, in whole or in part.
pub fn check_ingress(decrypted: Result<Vec<u8>, IntegrityError>) -> (r: Ingress)
    ensures
        ingress_ok(decrypted, r),
{
    match decrypted {
        Err(_) => Ingress::IntegrityFailure,
        Ok(p) => {
            if ipv4_destination(p.as_slice()).is_some() {
                Ingress::Deliver(p)
            } else {
                Ingress::Malformed
            }
        },
    }
}

/// Whether a forwarding loop survives an interface error on `platform`: only
/// the one benign code of that platform is ignored.
pub fn on_device_error(platform: Platform, err: DeviceError) -> (r: LoopControl)
    ensures
        r == (match err {
            DeviceError::Io { raw_os_error } => if is_benign(platform, raw_os_error) {
                LoopControl::Continue
            } else {
                LoopControl::Stop
            },
            DeviceError::Creation(_) => LoopControl::Stop,
        }),
{
    match err {
        DeviceError::Io { raw_os_error } => {
            if crate::device::skip_error(platform, raw_os_error) {
                LoopControl::Continue
            } else {
                LoopControl::Stop
            }
        },
        DeviceError::Creation(_) => LoopControl::Stop,
    }
}

/// The one byte of an administrative node-map query, sent unencrypted.
pub const NODE_MAP_QUERY: u8 = 2;

/// Whether a raw datagram is an administrative node-map query.
pub fn is_node_map_query(datagram: &[u8]) -> (r: bool)
    ensures
        r == (datagram@.len() == 1 && datagram@[0] == NODE_MAP_QUERY),
{
    datagram.len() == 1 && datagram[0] == NODE_MAP_QUERY
}

/// The first byte of a keepalive message.
pub const KEEPALIVE: u8 = 1;

/// The virtual address a keepalive message claims: a kind byte then four
/// big-endian address bytes; anything after them is ignored.
pub open spec fn keepalive_claim(p: Seq<u8>) -> Option<u32> {
    if p.len() >= 5 && p[0] == KEEPALIVE {
        Some(word_at(p, 1))
    } else {
        None
    }
}

/// Reads the virtual address a keepalive message claims.
pub fn parse_keepalive(payload: &[u8]) -> (r: Option<u32>)
    ensures
        r == keepalive_claim(payload@),
{
    if payload.len() >= 5 && payload[0] == KEEPALIVE {
        Some(read_word(payload, 1))
    } else {
        None
    }
}

/// Builds the keepalive message that claims `addr`.
pub fn keepalive_message(addr: u32) -> (r: Vec<u8>)
    ensures
        r@.len() == 5,
        keepalive_claim(r@) == Some(addr),
{
    let a = (addr / 0x100_0000) as u8;
    let b = ((addr / 0x1_0000) % 0x100) as u8;
    let c = ((addr / 0x100) % 0x100) as u8;
    let d = (addr % 0x100) as u8;
    let r = vec![KEEPALIVE, a, b, c, d];
    assert(a as int * 0x100_0000 + b as int * 0x1_0000 + c as int * 0x100 + d as int
        == addr as int) by (nonlinear_arith)
        requires
            a as int == addr as int / 0x100_0000,
            b as int == (addr as int / 0x1_0000) % 0x100,
            c as int == (addr as int / 0x100) % 0x100,
            d as int == addr as int % 0x100,
            0 <= addr <= 0xFFFF_FFFF,
    ;
    r
}

/// The client role: a cached node map, replaced whole by server snapshots,
/// and the event counts of both directions.
pub struct ClientEngine {
    map: NodeMap,
    counters: Counters,
    platform: Platform,
}

impl ClientEngine {
    /// The engine's invariant.
    pub closed spec fn wf(&self) -> bool {
        self.map.wf()
    }

    pub closed spec fn spec_map(&self) -> Map<u32, NodeEntry> {
        self.map@
    }

    pub closed spec fn spec_counters(&self) -> Counters {
        self.counters
    }

    pub closed spec fn spec_platform(&self) -> Platform {
        self.platform
    }

    /// An engine with an empty cache and zero counts.
    pub fn new(platform: Platform) -> (r: ClientEngine)
        ensures
            r.wf(),
            r.spec_map() == Map::<u32, NodeEntry>::empty(),
            r.spec_counters() == zero_counters(),
            r.spec_platform() == platform,
    {
        ClientEngine { map: NodeMap::new(), counters: Counters::new(), platform }
    }

    /// The cached node map.
    pub fn map(&self) -> (r: &NodeMap)
        requires
            self.wf(),
        ensures
            r.wf(),
            r@ == self.spec_map(),
    {
        &self.map
    }

    /// The event counts.
    pub fn counters(&self) -> (r: Counters)
        ensures
            r == self.spec_counters(),
    {
        self.counters
    }

    /// Installs a fresh snapshot from the server in place of the cache, at
    /// once.
    pub fn install_snapshot(&mut self, snap: NodeMap)
        requires
            old(self).wf(),
            snap.wf(),
        ensures
            final(self).wf(),
            final(self).spec_map() == snap@,
            final(self).spec_counters() == old(self).spec_counters(),
            final(self).spec_platform() == old(self).spec_platform(),
    {
        self.map.replace_with(snap);
    }

    /// Routes a packet read from the interface and counts the outcome.
    pub fn on_tun_packet(&mut self, packet: &[u8]) -> (r: Egress)
        requires
            old(self).wf(),
        ensures
            final(self).wf(),
            r == egress_spec(old(self).spec_map(), packet@),
            final(self).spec_map() == old(self).spec_map(),
            final(self).spec_counters() == count_egress(old(self).spec_counters(), r),
            final(self).spec_platform() == old(self).spec_platform(),
    {
        let r = route_egress(&self.map, packet);
        self.counters.record_egress(r);
        r
    }

    /// Handles a datagram from the transport, given what decrypting it
    /// returned, and counts the outcome. A snapshot message that came from
    /// the server replaces the whole cache at once; anything else is a packet
    /// for the interface.
    pub fn on_transport_packet(
        &mut self,
        decrypted: Result<Vec<u8>, IntegrityError>,
        from_server: bool,
    ) -> (r: Ingress)
        requires
            old(self).wf(),
        ensures
            final(self).wf(),
            from_server && is_snapshot_message(decrypted) ==> match decode_snapshot_spec(decrypted->Ok_0@) {
                Some(s) => r is MapRefreshed && final(self).spec_map() == snapshot_map(s),
                None => r is Malformed && final(self).spec_map() == old(self).spec_map(),
            },
            !(from_server && is_snapshot_message(decrypted)) ==> ingress_ok(decrypted, r) && final(self).spec_map()
                == old(self).spec_map(),
            final(self).spec_counters() == count_ingress(old(self).spec_counters(), r),
            final(self).spec_platform() == old(self).spec_platform(),
    {
        let r = match decrypted {
            Ok(p) => {
                if from_server && p.len() > 0 && p[0] == SNAPSHOT {
                    match decode_snapshot(p.as_slice()) {
                        Some(es) => {
                            let mut fresh = NodeMap::new();
                            fresh.upsert_all(es.as_slice());
                            self.map.replace_with(fresh);
                            Ingress::MapRefreshed
                        },
                        None => Ingress::Malformed,
                    }
                } else {
                    check_ingress(Ok(p))
                }
            },
            Err(e) => check_ingress(Err(e)),
        };
        self.counters.record_ingress(&r);
        r
    }

    /// Whether the forwarding loop survives an interface error.
    pub fn on_device_error(&self, err: DeviceError) -> (r: LoopControl)
        ensures
            r == (match err {
                DeviceError::Io { raw_os_error } => if is_benign(
                    self.spec_platform(),
                    raw_os_error,
                ) {
                    LoopControl::Continue
                } else {
                    LoopControl::Stop
                },
                DeviceError::Creation(_) => LoopControl::Stop,
            }),
    {
        on_device_error(self.platform, err)
    }
}

/// The server role: the authoritative node map, learnt from the observed
/// source endpoints of keepalives, and the counts of relayed traffic.
pub struct ServerEngine {
    map: NodeMap,
    counters: Counters,
}

impl ServerEngine {
    /// The engine's invariant.
    pub closed spec fn wf(&self) -> bool {
        self.map.wf()
    }

    pub closed spec fn spec_map(&self) -> Map<u32, NodeEntry> {
        self.map@
    }

    pub closed spec fn spec_counters(&self) -> Counters {
        self.counters
    }

    /// An engine with an empty map and zero counts.
    pub fn new() -> (r: ServerEngine)
        ensures
            r.wf(),
            r.spec_map() == Map::<u32, NodeEntry>::empty(),
            r.spec_counters() == zero_counters(),
    {
        ServerEngine { map: NodeMap::new(), counters: Counters::new() }
    }

    /// The authoritative node map.
    pub fn map(&self) -> (r: &NodeMap)
        requires
            self.wf(),
        ensures
            r.wf(),
            r@ == self.spec_map(),
    {
        &self.map
    }

    /// The event counts.
    pub fn counters(&self) -> (r: Counters)
        ensures
            r == self.spec_counters(),
    {
        self.counters
    }

    /// Handles a keepalive received from the transport-observed endpoint
    /// `source` at time `now`. The claimed virtual address is bound to
    /// `source`, whatever endpoint the payload may name. A payload that is no
    /// keepalive is counted as malformed and changes nothing else.
    pub fn on_keepalive(&mut self, source: Endpoint, payload: &[u8], now: u64) -> (r: Option<
        NodeEntry,
    >)
        requires
            old(self).wf(),
        ensures
            final(self).wf(),
            match keepalive_claim(payload@) {
                None => {
                    &&& r is None
                    &&& final(self).spec_map() == old(self).spec_map()
                    &&& final(self).spec_counters() == (Counters {
                        malformed: bump(old(self).spec_counters().malformed),
                        ..old(self).spec_counters()
                    })
                },
                Some(addr) => {
                    &&& r == Some(
                        NodeEntry {
                            virtual_addr: addr,
                            endpoint: source,
                            last_seen: now,
                            generation: next_generation(old(self).spec_map(), addr),
                        },
                    )
                    &&& final(self).spec_map() == old(self).spec_map().insert(addr, r->Some_0)
                    &&& final(self).spec_counters() == (Counters {
                        registrations: bump(old(self).spec_counters().registrations),
                        ..old(self).spec_counters()
                    })
                },
            },
    {
        match parse_keepalive(payload) {
            None => {
                self.counters.malformed = incr(self.counters.malformed);
                None
            },
            Some(addr) => {
                let e = self.map.register(addr, source, now);
                self.counters.registrations = incr(self.counters.registrations);
                Some(e)
            },
        }
    }

    /// Handles a datagram from the transport-observed endpoint `source` at time
    /// `now`, given what decrypting it returned. A plaintext that starts with
    /// the keepalive byte is a keepalive; any other is a packet to relay.
    pub fn on_datagram(
        &mut self,
        source: Endpoint,
        decrypted: Result<Vec<u8>, IntegrityError>,
        now: u64,
    ) -> (r: ServerAction)
        requires
            old(self).wf(),
        ensures
            final(self).wf(),
            match decrypted {
                Err(_) => {
                    &&& r == ServerAction::IntegrityFailure
                    &&& final(self).spec_map() == old(self).spec_map()
                    &&& final(self).spec_counters() == (Counters {
                        integrity_failures: bump(old(self).spec_counters().integrity_failures),
                        ..old(self).spec_counters()
                    })
                },
                Ok(p) => if p@.len() > 0 && p@[0] == KEEPALIVE {
                    match keepalive_claim(p@) {
                        None => {
                            &&& r == ServerAction::Malformed
                            &&& final(self).spec_map() == old(self).spec_map()
                            &&& final(self).spec_counters() == (Counters {
                                malformed: bump(old(self).spec_counters().malformed),
                                ..old(self).spec_counters()
                            })
                        },
                        Some(addr) => {
                            let e = NodeEntry {
                                virtual_addr: addr,
                                endpoint: source,
                                last_seen: now,
                                generation: next_generation(old(self).spec_map(), addr),
                            };
                            &&& r == ServerAction::Registered(e)
                            &&& final(self).spec_map() == old(self).spec_map().insert(addr, e)
                            &&& final(self).spec_counters() == (Counters {
                                registrations: bump(old(self).spec_counters().registrations),
                                ..old(self).spec_counters()
                            })
                        },
                    }
                } else {
                    &&& r == ServerAction::Forward(egress_spec(old(self).spec_map(), p@))
                    &&& final(self).spec_map() == old(self).spec_map()
                    &&& final(self).spec_counters() == count_egress(
                        old(self).spec_counters(),
                        egress_spec(old(self).spec_map(), p@),
                    )
                },
            },
    {
        match decrypted {
            Err(_) => {
                self.counters.integrity_failures = incr(self.counters.integrity_failures);
                ServerAction::IntegrityFailure
            },
            Ok(p) => {
                if p.len() > 0 && p[0] == KEEPALIVE {
                    match self.on_keepalive(source, p.as_slice(), now) {
                        Some(e) => ServerAction::Registered(e),
                        None => ServerAction::Malformed,
                    }
                } else {
                    ServerAction::Forward(self.relay(p.as_slice()))
                }
            },
        }
    }

    /// Routes a decrypted packet that one client relays to another, and
    /// counts the outcome.
    pub fn relay(&mut self, packet: &[u8]) -> (r: Egress)
        requires
            old(self).wf(),
        ensures
            final(self).wf(),
            r == egress_spec(old(self).spec_map(), packet@),
            final(self).spec_map() == old(self).spec_map(),
            final(self).spec_counters() == count_egress(old(self).spec_counters(), r),
    {
        let r = route_egress(&self.map, packet);
        self.counters.record_egress(r);
        r
    }

    /// Removes the entries not refreshed since `now - timeout`.
    pub fn evict_stale(&mut self, now: u64, timeout: u64)
        requires
            old(self).wf(),
        ensures
            final(self).wf(),
            forall|k: u32| #[trigger]
                final(self).spec_map().contains_key(k) <==> (old(self).spec_map().contains_key(k)
                    && !crate::node_map::is_stale(old(self).spec_map()[k], now, timeout)),
            forall|k: u32| #[trigger]
                final(self).spec_map().contains_key(k) ==> final(self).spec_map()[k] == old(
                    self,
                ).spec_map()[k],
            final(self).spec_counters() == old(self).spec_counters(),
    {
        self.map.evict_stale(now, timeout);
    }

    /// A snapshot message listing every entry of the map, to push to clients
    /// or to answer a node-map query.
    pub fn snapshot_message(&self) -> (r: Vec<u8>)
        requires
            self.wf(),
        ensures
            exists|s: Seq<NodeEntry>| is_listing(s, self.spec_map()) && r@ == snapshot_bytes(s),
    {
        let entries = self.map.to_vec();
        encode_snapshot(entries.as_slice())
    }

    /// What the server sends back to the sender of a datagram it handled: a
    /// fresh snapshot of the map after a registration, nothing otherwise.
    pub fn reply_for(&self, action: ServerAction) -> (r: Option<Vec<u8>>)
        requires
            self.wf(),
        ensures
            r is Some <==> action is Registered,
            r is Some ==> exists|s: Seq<NodeEntry>|
                is_listing(s, self.spec_map()) && r->Some_0@ == snapshot_bytes(s),
    {
        match action {
            ServerAction::Registered(_) => Some(self.snapshot_message()),
            _ => None,
        }
    }

    /// A point-in-time copy of the map, to push to clients.
    pub fn snapshot(&self) -> (r: NodeMap)
        requires
            self.wf(),
        ensures
            r.wf(),
            r@ == self.spec_map(),
    {
        self.map.snapshot()
    }
}

} // verus!
