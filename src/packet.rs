use vstd::prelude::*;

verus! {

/// The big-endian 32-bit word of `p` that starts at byte `i`.
pub open spec fn word_at(p: Seq<u8>, i: int) -> u32 {
    (p[i] as int * 0x100_0000 + p[i + 1] as int * 0x1_0000 + p[i + 2] as int * 0x100
        + p[i + 3] as int) as u32
}

/// The smallest IPv4 header, in bytes.
pub const IPV4_MIN_HEADER: usize = 20;

/// `p` starts with a well-formed IPv4 header: version 4, a header length of
/// at least five words, and the whole header present.
pub open spec fn ipv4_header_ok(p: Seq<u8>) -> bool {
    &&& p.len() >= 20
    &&& p[0] / 16 == 4
    &&& p[0] % 16 >= 5
    &&& (p[0] % 16) * 4 <= p.len()
}

/// The source address field of an IPv4 header.
pub open spec fn ipv4_source_of(p: Seq<u8>) -> u32 {
    word_at(p, 12)
}

/// The destination address field of an IPv4 header.
pub open spec fn ipv4_destination_of(p: Seq<u8>) -> u32 {
    word_at(p, 16)
}

/// Reads the big-endian word of `p` at byte `i`.
pub fn read_word(p: &[u8], i: usize) -> (r: u32)
    requires
        i + 4 <= p@.len(),
    ensures
        r == word_at(p@, i as int),
{
    let a = p[i] as u32;
    let b = p[i + 1] as u32;
    let c = p[i + 2] as u32;
    let d = p[i + 3] as u32;
    assert(a * 0x100_0000 + b * 0x1_0000 + c * 0x100 + d <= 0xFFFF_FFFF) by (nonlinear_arith)
        requires
            a <= 255,
            b <= 255,
            c <= 255,
            d <= 255,
    ;
    a * 0x100_0000 + b * 0x1_0000 + c * 0x100 + d
}

/// Whether `p` starts with a well-formed IPv4 header.
pub fn is_ipv4_header_ok(p: &[u8]) -> (r: bool)
    ensures
        r == ipv4_header_ok(p@),
{
    if p.len() < IPV4_MIN_HEADER {
        return false;
    }
    let first = p[0];
    let ihl = (first % 16) as usize;
    first / 16 == 4 && ihl >= 5 && ihl * 4 <= p.len()
}

/// The destination address of an IPv4 packet, or `None` for a packet whose
/// header is undersized or unparsable.
pub fn ipv4_destination(p: &[u8]) -> (r: Option<u32>)
    ensures
        r == (if ipv4_header_ok(p@) {
            Some(ipv4_destination_of(p@))
        } else {
            None
        }),
{
    if is_ipv4_header_ok(p) {
        Some(read_word(p, 16))
    } else {
        None
    }
}

/// The source address of an IPv4 packet, or `None` for a packet whose header
/// is undersized or unparsable.
pub fn ipv4_source(p: &[u8]) -> (r: Option<u32>)
    ensures
        r == (if ipv4_header_ok(p@) {
            Some(ipv4_source_of(p@))
        } else {
            None
        }),
{
    if is_ipv4_header_ok(p) {
        Some(read_word(p, 12))
    } else {
        None
    }
}

} // verus!
