use vstd::arithmetic::div_mod::{lemma_breakdown, lemma_small_mod};
use vstd::prelude::*;

use crate::addr::Endpoint;
use crate::node_map::NodeEntry;

verus! {

/// `256` to the power `n`.
pub open spec fn pow256(n: nat) -> nat
    decreases n,
{
    if n == 0 {
        1
    } else {
        256 * pow256((n - 1) as nat)
    }
}

/// The number that the bytes `s` spell in big-endian order.
pub open spec fn be_value(s: Seq<u8>) -> nat
    decreases s.len(),
{
    if s.len() == 0 {
        0
    } else {
        be_value(s.drop_last()) * 256 + s.last() as nat
    }
}

/// The last `n` bytes of `v` in big-endian order.
pub open spec fn be_bytes(v: nat, n: nat) -> Seq<u8>
    decreases n,
{
    if n == 0 {
        Seq::empty()
    } else {
        be_bytes(v / 256, (n - 1) as nat).push((v % 256) as u8)
    }
}

proof fn lemma_pow256_positive(n: nat)
    ensures
        pow256(n) > 0,
    decreases n,
{
    if n > 0 {
        lemma_pow256_positive((n - 1) as nat);
    }
}

proof fn lemma_be_value_bound(s: Seq<u8>)
    ensures
        be_value(s) < pow256(s.len()),
    decreases s.len(),
{
    if s.len() > 0 {
        let p = s.drop_last();
        lemma_be_value_bound(p);
        let a = be_value(p);
        let b = s.last() as nat;
        let q = pow256(p.len());
        assert(a * 256 + b < 256 * q) by (nonlinear_arith)
            requires
                a < q,
                b < 256,
        ;
    }
}

/// Reading back `n` big-endian bytes of `v` gives `v` modulo `256^n`.
proof fn lemma_be_round_trip(v: nat, n: nat)
    ensures
        be_bytes(v, n).len() == n,
        be_value(be_bytes(v, n)) == v % pow256(n),
    decreases n,
{
    if n > 0 {
        let m = (n - 1) as nat;
        lemma_be_round_trip(v / 256, m);
        lemma_pow256_positive(m);
        let s = be_bytes(v, n);
        assert(s.drop_last() == be_bytes(v / 256, m));
        lemma_breakdown(v as int, 256, pow256(m) as int);
    } else {
        assert(v % 1 == 0);
    }
}

/// Appends the last `n` bytes of `v` in big-endian order.
pub fn push_be(out: &mut Vec<u8>, v: u128, n: usize)
    ensures
        final(out)@ == old(out)@ + be_bytes(v as nat, n as nat),
    decreases n,
{
    if n > 0 {
        push_be(out, v / 256, n - 1);
        out.push((v % 256) as u8);
        proof {
            let m = (n - 1) as nat;
            assert(be_bytes(v as nat, n as nat) == be_bytes((v / 256) as nat, m).push(
                (v % 256) as u8,
            ));
            assert(final(out)@ =~= old(out)@ + be_bytes(v as nat, n as nat));
        }
    } else {
        assert(old(out)@ + be_bytes(v as nat, 0) =~= old(out)@);
    }
}

/// Reads the `n` big-endian bytes of `p` that start at `at`.
pub fn read_be(p: &[u8], at: usize, n: usize) -> (r: u128)
    requires
        n <= 16,
        at + n <= p@.len(),
    ensures
        r == be_value(p@.subrange(at as int, at + n)),
{
    let len = p.len();
    let mut acc: u128 = 0;
    let mut j: usize = 0;
    while j < n
        invariant
            len == p@.len(),
            n <= 16,
            at + n <= p@.len(),
            j <= n,
            acc == be_value(p@.subrange(at as int, at + j)),
        decreases n - j,
    {
        let ghost s = p@.subrange(at as int, at + j + 1);
        proof {
            assert(s.drop_last() == p@.subrange(at as int, at + j));
            lemma_be_value_bound(p@.subrange(at as int, at + j));
            lemma_pow256_le(j as nat, 15);
            reveal_with_fuel(pow256, 16);
            assert(pow256(15) == 0x1_0000_0000_0000_0000_0000_0000_0000_00);
        }
        let b = p[at + j];
        assert(acc * 256 + b < 0x1_0000_0000_0000_0000_0000_0000_0000_0000) by (nonlinear_arith)
            requires
                acc < 0x1_0000_0000_0000_0000_0000_0000_0000_00,
                b < 256,
        ;
        acc = acc * 256 + b as u128;
        j = j + 1;
    }
    acc
}

proof fn lemma_pow256_le(a: nat, b: nat)
    requires
        a <= b,
    ensures
        pow256(a) <= pow256(b),
    decreases b,
{
    if a < b {
        lemma_pow256_le(a, (b - 1) as nat);
        lemma_pow256_positive((b - 1) as nat);
    }
}

/// The length of one encoded node entry.
pub const ENTRY_LEN: usize = 39;

/// The first byte of a node-map snapshot message.
pub const SNAPSHOT: u8 = 3;

/// The tag byte of an IPv4 endpoint.
pub const TAG_V4: u8 = 4;

/// The tag byte of an IPv6 endpoint.
pub const TAG_V6: u8 = 6;

/// An endpoint as a tag byte, sixteen address bytes and two port bytes, all
/// big-endian; an IPv4 address fills the last four address bytes.
pub open spec fn endpoint_bytes(e: Endpoint) -> Seq<u8> {
    match e {
        Endpoint::V4 { ip, port } => seq![TAG_V4] + be_bytes(ip as nat, 16) + be_bytes(
            port as nat,
            2,
        ),
        Endpoint::V6 { ip6, port } => seq![TAG_V6] + be_bytes(ip6 as nat, 16) + be_bytes(
            port as nat,
            2,
        ),
    }
}

/// An entry as its virtual address, endpoint, last-seen time and generation.
pub open spec fn entry_bytes(e: NodeEntry) -> Seq<u8> {
    be_bytes(e.virtual_addr as nat, 4) + endpoint_bytes(e.endpoint) + be_bytes(
        e.last_seen as nat,
        8,
    ) + be_bytes(e.generation as nat, 8)
}

/// The entries of `s`, encoded one after another.
pub open spec fn entries_bytes(s: Seq<NodeEntry>) -> Seq<u8>
    decreases s.len(),
{
    if s.len() == 0 {
        Seq::empty()
    } else {
        entries_bytes(s.drop_last()) + entry_bytes(s.last())
    }
}

/// The entry that the `ENTRY_LEN` bytes `c` encode, if they encode one.
pub open spec fn decode_entry_spec(c: Seq<u8>) -> Option<NodeEntry> {
    let va = be_value(c.subrange(0, 4));
    let tag = c[4];
    let ip = be_value(c.subrange(5, 21));
    let port = be_value(c.subrange(21, 23));
    let last_seen = be_value(c.subrange(23, 31));
    let generation = be_value(c.subrange(31, 39));
    if tag == TAG_V4 && ip < 0x1_0000_0000 {
        Some(
            NodeEntry {
                virtual_addr: va as u32,
                endpoint: Endpoint::V4 { ip: ip as u32, port: port as u16 },
                last_seen: last_seen as u64,
                generation: generation as u64,
            },
        )
    } else if tag == TAG_V6 {
        Some(
            NodeEntry {
                virtual_addr: va as u32,
                endpoint: Endpoint::V6 { ip6: ip as u128, port: port as u16 },
                last_seen: last_seen as u64,
                generation: generation as u64,
            },
        )
    } else {
        None
    }
}

/// The `i`-th entry-sized piece of `p`.
pub open spec fn chunk(p: Seq<u8>, i: int) -> Seq<u8> {
    p.subrange(i * 39, i * 39 + 39)
}

/// The entries that `p` encodes: a whole number of pieces, each a valid entry.
pub open spec fn decode_entries_spec(p: Seq<u8>) -> Option<Seq<NodeEntry>> {
    if p.len() % 39 == 0 && forall|i: int|
        0 <= i < p.len() / 39 ==> #[trigger] decode_entry_spec(chunk(p, i)) is Some {
        Some(Seq::new((p.len() / 39) as nat, |i: int| decode_entry_spec(chunk(p, i))->Some_0))
    } else {
        None
    }
}

/// The snapshot message for entries `s`.
pub open spec fn snapshot_bytes(s: Seq<NodeEntry>) -> Seq<u8> {
    seq![SNAPSHOT] + entries_bytes(s)
}

/// The entries that the snapshot message `m` carries, if it is one.
pub open spec fn decode_snapshot_spec(m: Seq<u8>) -> Option<Seq<NodeEntry>> {
    if m.len() >= 1 && m[0] == SNAPSHOT {
        decode_entries_spec(m.drop_first())
    } else {
        None
    }
}

/// Appends the encoding of `e`.
pub fn push_entry(out: &mut Vec<u8>, e: &NodeEntry)
    ensures
        final(out)@ == old(out)@ + entry_bytes(*e),
{
    push_be(out, e.virtual_addr as u128, 4);
    match e.endpoint {
        Endpoint::V4 { ip, port } => {
            out.push(TAG_V4);
            push_be(out, ip as u128, 16);
            push_be(out, port as u128, 2);
        },
        Endpoint::V6 { ip6, port } => {
            out.push(TAG_V6);
            push_be(out, ip6, 16);
            push_be(out, port as u128, 2);
        },
    }
    push_be(out, e.last_seen as u128, 8);
    push_be(out, e.generation as u128, 8);
    assert(final(out)@ =~= old(out)@ + entry_bytes(*e));
}

/// Encodes a snapshot message carrying `entries`.
pub fn encode_snapshot(entries: &[NodeEntry]) -> (r: Vec<u8>)
    ensures
        r@ == snapshot_bytes(entries@),
{
    let mut out: Vec<u8> = Vec::new();
    out.push(SNAPSHOT);
    let mut i: usize = 0;
    while i < entries.len()
        invariant
            i <= entries@.len(),
            out@ == seq![SNAPSHOT] + entries_bytes(entries@.subrange(0, i as int)),
        decreases entries@.len() - i,
    {
        push_entry(&mut out, &entries[i]);
        proof {
            let t = entries@.subrange(0, i + 1);
            assert(t.drop_last() == entries@.subrange(0, i as int));
            assert(out@ =~= seq![SNAPSHOT] + entries_bytes(t));
        }
        i = i + 1;
    }
    assert(entries@.subrange(0, entries@.len() as int) == entries@);
    out
}

/// Decodes the entry in the `ENTRY_LEN` bytes of `p` that start at `at`.
pub fn decode_entry(p: &[u8], at: usize) -> (r: Option<NodeEntry>)
    requires
        at + 39 <= p@.len(),
    ensures
        r == decode_entry_spec(p@.subrange(at as int, at + 39)),
{
    let ghost c = p@.subrange(at as int, at + 39);
    let len = p.len();
    assert(at + 39 <= len);
    let va = read_be(p, at, 4);
    let ip = read_be(p, at + 5, 16);
    let port = read_be(p, at + 21, 2);
    let last_seen = read_be(p, at + 23, 8);
    let generation = read_be(p, at + 31, 8);
    proof {
        assert(c.subrange(0, 4) == p@.subrange(at as int, at + 4));
        assert(c.subrange(5, 21) == p@.subrange(at + 5, at + 21));
        assert(c.subrange(21, 23) == p@.subrange(at + 21, at + 23));
        assert(c.subrange(23, 31) == p@.subrange(at + 23, at + 31));
        assert(c.subrange(31, 39) == p@.subrange(at + 31, at + 39));
        assert(c[4] == p@[at + 4]);
        lemma_be_value_bound(c.subrange(0, 4));
        lemma_be_value_bound(c.subrange(21, 23));
        lemma_be_value_bound(c.subrange(23, 31));
        lemma_be_value_bound(c.subrange(31, 39));
        reveal_with_fuel(pow256, 9);
    }
    let tag = p[at + 4];
    if tag == TAG_V4 && ip < 0x1_0000_0000 {
        Some(
            NodeEntry {
                virtual_addr: va as u32,
                endpoint: Endpoint::V4 { ip: ip as u32, port: port as u16 },
                last_seen: last_seen as u64,
                generation: generation as u64,
            },
        )
    } else if tag == TAG_V6 {
        Some(
            NodeEntry {
                virtual_addr: va as u32,
                endpoint: Endpoint::V6 { ip6: ip, port: port as u16 },
                last_seen: last_seen as u64,
                generation: generation as u64,
            },
        )
    } else {
        None
    }
}

/// Decodes a snapshot message into its entries; `None` for anything that is
/// not a whole, valid snapshot.
pub fn decode_snapshot(msg: &[u8]) -> (r: Option<Vec<NodeEntry>>)
    ensures
        match decode_snapshot_spec(msg@) {
            Some(s) => r is Some && r->Some_0@ == s,
            None => r is None,
        },
{
    let len = msg.len();
    if len < 1 || msg[0] != SNAPSHOT {
        return None;
    }
    let ghost body = msg@.drop_first();
    let n = (len - 1) / ENTRY_LEN;
    if (len - 1) % ENTRY_LEN != 0 {
        return None;
    }
    assert(n * 39 == body.len()) by (nonlinear_arith)
        requires
            n == (len - 1) / 39,
            (len - 1) % 39 == 0,
            body.len() == len - 1,
    ;
    let mut out: Vec<NodeEntry> = Vec::new();
    let mut i: usize = 0;
    let mut at: usize = 1;
    while i < n
        invariant
            len == msg@.len(),
            len >= 1,
            body == msg@.drop_first(),
            n * 39 == body.len(),
            i <= n,
            at == 1 + 39 * i,
            out@ == Seq::new(i as nat, |j: int| decode_entry_spec(chunk(body, j))->Some_0),
            forall|j: int| 0 <= j < i ==> #[trigger] decode_entry_spec(chunk(body, j)) is Some,
        decreases n - i,
    {
        assert(39 * i + 39 <= 39 * n) by (nonlinear_arith)
            requires
                i < n,
        ;
        proof {
            assert(chunk(body, i as int) == msg@.subrange(at as int, at + 39));
        }
        match decode_entry(msg, at) {
            None => {
                return None;
            },
            Some(e) => {
                out.push(e);
            },
        }
        proof {
            assert(out@ =~= Seq::new(
                (i + 1) as nat,
                |j: int| decode_entry_spec(chunk(body, j))->Some_0,
            ));
        }
        i = i + 1;
        at = at + 39;
    }
    proof {
        assert(body.len() / 39 == n) by (nonlinear_arith)
            requires
                n * 39 == body.len(),
        ;
        assert(body.len() % 39 == 0) by (nonlinear_arith)
            requires
                n * 39 == body.len(),
        ;
        assert(out@ =~= decode_entries_spec(body)->Some_0);
    }
    Some(out)
}

proof fn lemma_entry_round_trip(e: NodeEntry)
    ensures
        entry_bytes(e).len() == 39,
        decode_entry_spec(entry_bytes(e)) == Some(e),
{
    reveal_with_fuel(pow256, 17);
    let c = entry_bytes(e);
    lemma_be_round_trip(e.virtual_addr as nat, 4);
    lemma_be_round_trip(e.last_seen as nat, 8);
    lemma_be_round_trip(e.generation as nat, 8);
    let va = be_bytes(e.virtual_addr as nat, 4);
    let ls = be_bytes(e.last_seen as nat, 8);
    let g = be_bytes(e.generation as nat, 8);
    lemma_small_mod(e.virtual_addr as nat, pow256(4));
    lemma_small_mod(e.last_seen as nat, pow256(8));
    lemma_small_mod(e.generation as nat, pow256(8));
    match e.endpoint {
        Endpoint::V4 { ip, port } => {
            lemma_be_round_trip(ip as nat, 16);
            lemma_be_round_trip(port as nat, 2);
            let ipb = be_bytes(ip as nat, 16);
            let pb = be_bytes(port as nat, 2);
            lemma_small_mod(port as nat, pow256(2));
            assert(pow256(16) == 0x1_0000_0000_0000_0000_0000_0000_0000_0000);
            lemma_small_mod(ip as nat, pow256(16));
            assert(be_value(ipb) == ip as nat);
            assert(c.subrange(0, 4) == va);
            assert(c[4] == TAG_V4);
            assert(c.subrange(5, 21) == ipb);
            assert(c.subrange(21, 23) == pb);
            assert(c.subrange(23, 31) == ls);
            assert(c.subrange(31, 39) == g);
        },
        Endpoint::V6 { ip6, port } => {
            lemma_be_round_trip(ip6 as nat, 16);
            assert(pow256(16) == 0x1_0000_0000_0000_0000_0000_0000_0000_0000);
            lemma_small_mod(ip6 as nat, pow256(16));
            lemma_be_round_trip(port as nat, 2);
            let ipb = be_bytes(ip6 as nat, 16);
            let pb = be_bytes(port as nat, 2);
            lemma_small_mod(port as nat, pow256(2));
            assert(c.subrange(0, 4) == va);
            assert(c[4] == TAG_V6);
            assert(c.subrange(5, 21) == ipb);
            assert(c.subrange(21, 23) == pb);
            assert(c.subrange(23, 31) == ls);
            assert(c.subrange(31, 39) == g);
        },
    }
}

proof fn lemma_entries_chunks(s: Seq<NodeEntry>)
    ensures
        entries_bytes(s).len() == 39 * s.len(),
        forall|i: int| 0 <= i < s.len() ==> #[trigger] chunk(entries_bytes(s), i) == entry_bytes(s[i]),
    decreases s.len(),
{
    if s.len() > 0 {
        let p = s.drop_last();
        lemma_entries_chunks(p);
        lemma_entry_round_trip(s.last());
        let a = entries_bytes(p);
        let b = entries_bytes(s);
        assert(b == a + entry_bytes(s.last()));
        assert forall|i: int| 0 <= i < s.len() implies #[trigger] chunk(b, i) == entry_bytes(s[i]) by {
            if i < p.len() {
                assert(i * 39 + 39 <= p.len() * 39) by (nonlinear_arith)
                    requires
                        i < p.len(),
                ;
                assert(chunk(a, i) == entry_bytes(p[i]));
                assert(chunk(b, i) == chunk(a, i));
            } else {
                assert(i * 39 == a.len());
                assert(chunk(b, i) == entry_bytes(s.last()));
            }
        }
    }
}

/// Reading a snapshot message back gives exactly the entries it was built
/// from.
pub proof fn lemma_snapshot_round_trip(s: Seq<NodeEntry>)
    ensures
        decode_snapshot_spec(snapshot_bytes(s)) == Some(s),
{
    lemma_entries_chunks(s);
    let m = snapshot_bytes(s);
    let body = entries_bytes(s);
    assert(m.drop_first() == body);
    assert(body.len() / 39 == s.len()) by (nonlinear_arith)
        requires
            body.len() == 39 * s.len(),
    ;
    assert(body.len() % 39 == 0) by (nonlinear_arith)
        requires
            body.len() == 39 * s.len(),
    ;
    assert forall|i: int| 0 <= i < body.len() / 39 implies #[trigger] decode_entry_spec(
        chunk(body, i),
    ) is Some by {
        lemma_entry_round_trip(s[i]);
    }
    assert forall|i: int| 0 <= i < s.len() implies decode_entry_spec(chunk(body, i))->Some_0
        == s[i] by {
        lemma_entry_round_trip(s[i]);
    }
    assert(decode_entries_spec(body)->Some_0 =~= s);
}

} // verus!
