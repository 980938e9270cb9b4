//! Fragmentation of encoded NAL units into UDP datagrams.
//!
//! Each datagram carries an 8-byte header followed by a slice of the NAL:
//!
//! ```text
//! [0..4]  seq: u32 LE - global sequence number
//! [4]     flags: u8 - bit 0: keyframe, bit 1: last fragment of NAL
//! [5]     fragment_index: u8 - fragment number within this NAL (0-based)
//! [6..8]  nal_size: u16 LE - total NAL size (for reassembly)
//! ```

use crate::encoder::EncodedNal;
use vstd::prelude::*;
use vstd::string::StringExecFns;

verus! {

/// Largest UDP payload sent, to stay under a typical MTU (1500 - 20 - 8).
pub const MAX_UDP_PAYLOAD: usize = 1400;

/// Size of the datagram header.
pub const HEADER_SIZE: usize = 8;

/// Largest slice of a NAL carried by one datagram.
pub const MAX_FRAGMENT_PAYLOAD: usize = 1392;

/// Flag bit set on every fragment of a keyframe NAL.
pub const FLAG_KEYFRAME: u8 = 1;

/// Flag bit set on the last fragment of a NAL.
pub const FLAG_LAST: u8 = 2;

/// The little-endian bytes of a 32-bit value.
pub open spec fn le_bytes_u32(x: u32) -> Seq<u8> {
    seq![
        (x % 256) as u8,
        ((x / 256) % 256) as u8,
        ((x / 65536) % 256) as u8,
        ((x / 16777216) % 256) as u8,
    ]
}

/// The little-endian bytes of a 16-bit value.
pub open spec fn le_bytes_u16(x: u16) -> Seq<u8> {
    seq![(x % 256) as u8, ((x / 256) % 256) as u8]
}

/// The datagram header for the given field values.
pub open spec fn header_spec(seq: u32, flags: u8, index: u8, nal_size: u16) -> Seq<u8> {
    le_bytes_u32(seq) + seq![flags, index] + le_bytes_u16(nal_size)
}

/// How many fragments a NAL of `n` bytes is split into.
pub open spec fn fragment_count_spec(n: nat) -> nat {
    if n == 0 {
        0
    } else {
        ((n + MAX_FRAGMENT_PAYLOAD - 1) / (MAX_FRAGMENT_PAYLOAD as int)) as nat
    }
}

/// Start offset in the NAL of fragment `i`.
pub open spec fn fragment_start(i: int) -> int {
    i * MAX_FRAGMENT_PAYLOAD
}

/// End offset (exclusive) in a NAL of `n` bytes of fragment `i`.
pub open spec fn fragment_end(n: int, i: int) -> int {
    if (i + 1) * MAX_FRAGMENT_PAYLOAD <= n {
        (i + 1) * MAX_FRAGMENT_PAYLOAD
    } else {
        n
    }
}

/// The flags byte of fragment `i` out of `count`.
pub open spec fn flags_spec(is_keyframe: bool, i: int, count: int) -> u8 {
    ((if is_keyframe { 1int } else { 0int }) + (if i == count - 1 { 2int } else { 0int })) as u8
}

/// The full datagram carrying fragment `i` of `data`, numbered from `first_seq`.
pub open spec fn packet_spec(data: Seq<u8>, is_keyframe: bool, first_seq: u32, i: int) -> Seq<u8> {
    let count = fragment_count_spec(data.len()) as int;
    header_spec(
        ((first_seq + i) % 0x1_0000_0000) as u32,
        flags_spec(is_keyframe, i, count),
        (i % 256) as u8,
        (data.len() % 65536) as u16,
    ) + data.subrange(fragment_start(i), fragment_end(data.len() as int, i))
}

/// Number of fragments a NAL of `nal_size` bytes is split into.
pub fn fragment_count(nal_size: usize) -> (count: usize)
    requires
        nal_size <= usize::MAX - MAX_FRAGMENT_PAYLOAD,
    ensures
        count == fragment_count_spec(nal_size as nat),
{
    if nal_size == 0 {
        0
    } else {
        (nal_size + MAX_FRAGMENT_PAYLOAD - 1) / MAX_FRAGMENT_PAYLOAD
    }
}

/// Builds the 8-byte datagram header.
pub fn build_header(seq: u32, flags: u8, index: u8, nal_size: u16) -> (header: Vec<u8>)
    ensures
        header@ == header_spec(seq, flags, index, nal_size),
{
    let mut header: Vec<u8> = Vec::with_capacity(HEADER_SIZE);
    header.push((seq & 0xff) as u8);
    header.push(((seq >> 8) & 0xff) as u8);
    header.push(((seq >> 16) & 0xff) as u8);
    header.push(((seq >> 24) & 0xff) as u8);
    header.push(flags);
    header.push(index);
    header.push((nal_size & 0xff) as u8);
    header.push(((nal_size >> 8) & 0xff) as u8);
    proof {
        assert((seq & 0xff) == seq % 256) by (bit_vector);
        assert(((seq >> 8) & 0xff) == (seq / 256) % 256) by (bit_vector);
        assert(((seq >> 16) & 0xff) == (seq / 65536) % 256) by (bit_vector);
        assert(((seq >> 24) & 0xff) == (seq / 16777216) % 256) by (bit_vector);
        assert((nal_size & 0xff) == nal_size % 256) by (bit_vector);
        assert(((nal_size >> 8) & 0xff) == (nal_size / 256) % 256) by (bit_vector);
        assert(header@ =~= header_spec(seq, flags, index, nal_size));
    }
    header
}

} // verus!

verus! {

/// Builds the datagram for fragment `i` of `count`, given the sequence number
/// and index byte already reduced for it.
fn make_fragment(
    data: &[u8],
    is_keyframe: bool,
    first_seq: u32,
    seq: u32,
    index: u8,
    i: usize,
    count: usize,
) -> (packet: Vec<u8>)
    requires
        data.len() <= usize::MAX - MAX_FRAGMENT_PAYLOAD,
        count == fragment_count_spec(data.len() as nat),
        i < count,
        seq == ((first_seq + i) % 0x1_0000_0000) as u32,
        index == (i % 256) as u8,
    ensures
        packet@ == packet_spec(data@, is_keyframe, first_seq, i as int),
{
    let nal_size = data.len();
    assert(i * MAX_FRAGMENT_PAYLOAD < nal_size) by (nonlinear_arith)
        requires
            i < count,
            count == (nal_size + MAX_FRAGMENT_PAYLOAD - 1) / (MAX_FRAGMENT_PAYLOAD as int),
    ;
    let offset = i * MAX_FRAGMENT_PAYLOAD;
    let end = if nal_size - offset >= MAX_FRAGMENT_PAYLOAD {
        offset + MAX_FRAGMENT_PAYLOAD
    } else {
        nal_size
    };
    let is_last = i == count - 1;
    let mut flags: u8 = if is_keyframe { FLAG_KEYFRAME } else { 0 };
    if is_last {
        flags = flags + FLAG_LAST;
    }
    let size_field = (nal_size % 65536) as u16;
    let mut packet = build_header(seq, flags, index, size_field);
    let fragment = &data[offset..end];
    packet.extend_from_slice(fragment);
    assert(packet@ =~= packet_spec(data@, is_keyframe, first_seq, i as int));
    packet
}

/// Stepping a counter kept modulo `m` by one.
proof fn lemma_mod_step(a: int, m: int)
    requires
        a >= 0,
        m > 0,
    ensures
        (a + 1) % m == (if a % m + 1 == m { 0 } else { a % m + 1 }),
{
    vstd::arithmetic::div_mod::lemma_fundamental_div_mod(a, m);
    vstd::arithmetic::div_mod::lemma_fundamental_div_mod(a + 1, m);
    let q = a / m;
    assert(a == q * m + a % m) by (nonlinear_arith)
        requires
            a == m * (a / m) + a % m,
            q == a / m,
    ;
    assert((q + 1) * m == q * m + m) by (nonlinear_arith);
    if a % m + 1 == m {
        vstd::arithmetic::div_mod::lemma_fundamental_div_mod_converse(a + 1, m, q + 1, 0);
    } else {
        vstd::arithmetic::div_mod::lemma_fundamental_div_mod_converse(a + 1, m, q, a % m + 1);
    }
}

/// Splits one NAL unit into datagrams, numbering them from `first_seq`
/// (wrapping at 2^32). A NAL of zero bytes yields no datagram.
pub fn fragment_nal(nal: &EncodedNal, first_seq: u32) -> (packets: Vec<Vec<u8>>)
    requires
        nal.data.len() <= usize::MAX - MAX_FRAGMENT_PAYLOAD,
    ensures
        packets.len() == fragment_count_spec(nal.data.len() as nat),
        forall|i: int|
            0 <= i < packets.len() ==> #[trigger] packets[i]@ == packet_spec(
                nal.data@,
                nal.is_keyframe,
                first_seq,
                i,
            ),
{
    let data = nal.data.as_slice();
    let count = fragment_count(data.len());
    let mut packets: Vec<Vec<u8>> = Vec::with_capacity(count);
    let mut seq = first_seq;
    let mut index: u8 = 0;
    let mut i: usize = 0;
    while i < count
        invariant
            data@ == nal.data@,
            count == fragment_count_spec(data.len() as nat),
            data.len() <= usize::MAX - MAX_FRAGMENT_PAYLOAD,
            i <= count,
            seq == ((first_seq + i) % 0x1_0000_0000) as u32,
            index == (i % 256) as u8,
            packets.len() == i,
            forall|j: int|
                0 <= j < i ==> #[trigger] packets[j]@ == packet_spec(
                    nal.data@,
                    nal.is_keyframe,
                    first_seq,
                    j,
                ),
        decreases count - i,
    {
        let packet = make_fragment(data, nal.is_keyframe, first_seq, seq, index, i, count);
        packets.push(packet);
        proof {
            lemma_mod_step(first_seq + i, 0x1_0000_0000);
            lemma_mod_step(i as int, 256);
        }
        seq = seq.wrapping_add(1);
        index = index.wrapping_add(1);
        i = i + 1;
    }
    packets
}

} // verus!

verus! {

/// The payloads (datagrams without their header) of the first `k` fragments.
pub open spec fn payloads(data: Seq<u8>, is_keyframe: bool, first_seq: u32, k: nat) -> Seq<Seq<u8>> {
    Seq::new(k, |i: int| packet_spec(data, is_keyframe, first_seq, i).skip(HEADER_SIZE as int))
}

proof fn lemma_payload_is_slice(data: Seq<u8>, is_keyframe: bool, first_seq: u32, i: int)
    ensures
        packet_spec(data, is_keyframe, first_seq, i).skip(HEADER_SIZE as int) =~= data.subrange(
            fragment_start(i),
            fragment_end(data.len() as int, i),
        ),
{
}

proof fn lemma_payload_prefix(data: Seq<u8>, is_keyframe: bool, first_seq: u32, k: nat)
    requires
        k <= fragment_count_spec(data.len()),
    ensures
        payloads(data, is_keyframe, first_seq, k).flatten_alt() =~= data.subrange(
            0,
            if k * MAX_FRAGMENT_PAYLOAD <= data.len() { k * MAX_FRAGMENT_PAYLOAD } else { data.len() as int },
        ),
    decreases k,
{
    let n = data.len() as int;
    if k > 0 {
        let prev = (k - 1) as nat;
        lemma_payload_prefix(data, is_keyframe, first_seq, prev);
        assert(payloads(data, is_keyframe, first_seq, k).drop_last() =~= payloads(
            data,
            is_keyframe,
            first_seq,
            prev,
        ));
        lemma_payload_is_slice(data, is_keyframe, first_seq, prev as int);
        assert(prev * MAX_FRAGMENT_PAYLOAD < n);
        let mid = prev * MAX_FRAGMENT_PAYLOAD;
        let hi = fragment_end(n, prev as int);
        assert(data.subrange(0, mid) + data.subrange(mid, hi) =~= data.subrange(0, hi));
    }
}

/// Reassembly: concatenating the payloads of all datagrams of a NAL, in
/// order, gives back the NAL's bytes.
pub proof fn lemma_fragments_reassemble(data: Seq<u8>, is_keyframe: bool, first_seq: u32)
    ensures
        payloads(data, is_keyframe, first_seq, fragment_count_spec(data.len())).flatten() == data,
{
    let count = fragment_count_spec(data.len());
    lemma_payload_prefix(data, is_keyframe, first_seq, count);
    payloads(data, is_keyframe, first_seq, count).lemma_flatten_and_flatten_alt_are_equivalent();
    assert(data.subrange(0, data.len() as int) =~= data);
}

/// Every datagram of a NAL fits in one UDP payload of at most
/// `MAX_UDP_PAYLOAD` bytes and carries at least one byte of the NAL; only the
/// last one has the last-fragment flag, and all carry the keyframe flag of
/// the NAL, the NAL's size modulo 2^16 and consecutive sequence numbers.
pub proof fn lemma_fragment_shape(data: Seq<u8>, is_keyframe: bool, first_seq: u32, i: int)
    requires
        0 <= i < fragment_count_spec(data.len()),
    ensures
        HEADER_SIZE < packet_spec(data, is_keyframe, first_seq, i).len() <= MAX_UDP_PAYLOAD,
        packet_spec(data, is_keyframe, first_seq, i)[4] % 2 == (if is_keyframe { 1int } else { 0int }),
        (packet_spec(data, is_keyframe, first_seq, i)[4] / 2 == 1) == (i
            == fragment_count_spec(data.len()) - 1),
        packet_spec(data, is_keyframe, first_seq, i).take(HEADER_SIZE as int) == header_spec(
            ((first_seq + i) % 0x1_0000_0000) as u32,
            flags_spec(is_keyframe, i, fragment_count_spec(data.len()) as int),
            (i % 256) as u8,
            (data.len() % 65536) as u16,
        ),
{
    lemma_payload_is_slice(data, is_keyframe, first_seq, i);
    let p = packet_spec(data, is_keyframe, first_seq, i);
    assert(p.take(HEADER_SIZE as int) =~= header_spec(
        ((first_seq + i) % 0x1_0000_0000) as u32,
        flags_spec(is_keyframe, i, fragment_count_spec(data.len()) as int),
        (i % 256) as u8,
        (data.len() % 65536) as u16,
    ));
}

} // verus!

verus! {

/// The address video datagrams go to: port 5000 of the client when one is
/// given, else the broadcast address.
pub open spec fn target_address_spec(client_ip: Option<Seq<char>>) -> Seq<char> {
    match client_ip {
        Some(ip) => ip + ":5000"@,
        None => "255.255.255.255:5000"@,
    }
}

/// The address video datagrams go to, as text: `<client_ip>:5000`, or the
/// broadcast address `255.255.255.255:5000` when no client is given.
pub fn target_address(client_ip: Option<&str>) -> (addr: String)
    ensures
        addr@ == target_address_spec(
            match client_ip {
                Some(ip) => Some(ip@),
                None => None,
            },
        ),
{
    match client_ip {
        Some(ip) => ip.to_owned().concat(":5000"),
        None => "255.255.255.255:5000".to_owned(),
    }
}

} // verus!

verus! {

/// The sequence number after reserving `count` numbers from `seq`: `seq +
/// count`, wrapping at 2^32.
pub fn advance_sequence(seq: u32, count: usize) -> (next: u32)
    ensures
        next == (seq + count) % 0x1_0000_0000,
{
    let step = ((count as u64) % 0x1_0000_0000) as u32;
    proof {
        vstd::arithmetic::div_mod::lemma_add_mod_noop(seq as int, count as int, 0x1_0000_0000);
        vstd::arithmetic::div_mod::lemma_small_mod(seq as nat, 0x1_0000_0000);
    }
    seq.wrapping_add(step)
}

} // verus!
