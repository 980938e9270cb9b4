use wifi_display_server::encoder::EncodedNal;
use wifi_display_server::transport::{
    advance_sequence, build_header, fragment_count, fragment_nal, target_address, HEADER_SIZE, MAX_UDP_PAYLOAD,
};

fn nal(len: usize, is_keyframe: bool) -> EncodedNal {
    EncodedNal { data: (0..len).map(|i| (i * 7 % 251) as u8).collect(), is_keyframe }
}

#[test]
fn fragment_count_rounds_up() {
    assert_eq!(fragment_count(0), 0);
    assert_eq!(fragment_count(1), 1);
    assert_eq!(fragment_count(1392), 1);
    assert_eq!(fragment_count(1393), 2);
    assert_eq!(fragment_count(2784), 2);
    assert_eq!(fragment_count(2785), 3);
}

#[test]
fn header_is_little_endian() {
    assert_eq!(build_header(0x0403_0201, 3, 7, 0xBEEF), vec![1, 2, 3, 4, 3, 7, 0xEF, 0xBE]);
    assert_eq!(build_header(0, 0, 0, 0), vec![0; 8]);
}

#[test]
fn empty_nal_sends_nothing() {
    assert!(fragment_nal(&nal(0, true), 9).is_empty());
}

#[test]
fn small_keyframe_nal_is_one_datagram() {
    let n = nal(10, true);
    let packets = fragment_nal(&n, 5);
    assert_eq!(packets.len(), 1);
    let mut expected = vec![5, 0, 0, 0, 3, 0, 10, 0];
    expected.extend_from_slice(&n.data);
    assert_eq!(packets[0], expected);
}

#[test]
fn large_nal_is_split_with_wrapping_sequence_numbers() {
    let n = nal(3000, false);
    let packets = fragment_nal(&n, u32::MAX - 1);
    assert_eq!(packets.len(), 3);
    let seqs: Vec<u32> = packets
        .iter()
        .map(|p| u32::from_le_bytes([p[0], p[1], p[2], p[3]]))
        .collect();
    assert_eq!(seqs, vec![u32::MAX - 1, u32::MAX, 0]);
    let flags: Vec<u8> = packets.iter().map(|p| p[4]).collect();
    assert_eq!(flags, vec![0, 0, 2]);
    let indices: Vec<u8> = packets.iter().map(|p| p[5]).collect();
    assert_eq!(indices, vec![0, 1, 2]);
    for p in &packets {
        assert_eq!(u16::from_le_bytes([p[6], p[7]]), 3000);
        assert!(p.len() <= MAX_UDP_PAYLOAD);
    }
    let lens: Vec<usize> = packets.iter().map(|p| p.len() - HEADER_SIZE).collect();
    assert_eq!(lens, vec![1392, 1392, 216]);
}

#[test]
fn fragments_reassemble_to_the_nal() {
    for len in [1usize, 1391, 1392, 1393, 5000, 13920] {
        for key in [false, true] {
            let n = nal(len, key);
            let packets = fragment_nal(&n, 77);
            let mut joined = Vec::new();
            for (i, p) in packets.iter().enumerate() {
                assert!(p.len() > HEADER_SIZE && p.len() <= MAX_UDP_PAYLOAD);
                assert_eq!(p[4] & 1, key as u8);
                assert_eq!(p[4] & 2 != 0, i == packets.len() - 1);
                joined.extend_from_slice(&p[HEADER_SIZE..]);
            }
            assert_eq!(joined, n.data);
        }
    }
}

#[test]
fn size_and_index_fields_wrap() {
    let n = nal(256 * 1392 + 1, true);
    let packets = fragment_nal(&n, 0);
    assert_eq!(packets.len(), 257);
    assert_eq!(packets[255][5], 255);
    assert_eq!(packets[256][5], 0);
    let size = (256 * 1392 + 1) % 65536;
    assert_eq!(u16::from_le_bytes([packets[0][6], packets[0][7]]) as usize, size);
    assert_eq!(packets[256][4], 3);
    assert_eq!(packets[256].len(), HEADER_SIZE + 1);
}

#[test]
fn target_address_is_client_or_broadcast() {
    assert_eq!(target_address(Some("192.168.1.50")), "192.168.1.50:5000");
    assert_eq!(target_address(None), "255.255.255.255:5000");
}

#[test]
fn sequence_advances_by_the_fragment_count_and_wraps() {
    assert_eq!(advance_sequence(5, 0), 5);
    assert_eq!(advance_sequence(5, 3), 8);
    assert_eq!(advance_sequence(u32::MAX, 1), 0);
    assert_eq!(advance_sequence(u32::MAX, 2), 1);
    assert_eq!(advance_sequence(0xFFFF_FFF0, 0x20), 0x10);
    assert_eq!(advance_sequence(7, usize::MAX), 6);
}
