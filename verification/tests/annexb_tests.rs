use wifi_display_server::annexb::{find_start_code, hevc_nal_type, is_keyframe_nal, take_complete_nals};

#[test]
fn finds_three_and_four_byte_start_codes() {
    assert_eq!(find_start_code(&[0, 0, 1, 5], 0), Some((0, 3)));
    assert_eq!(find_start_code(&[0, 0, 0, 1, 5], 0), Some((0, 4)));
    assert_eq!(find_start_code(&[9, 0, 0, 1], 0), Some((1, 3)));
    assert_eq!(find_start_code(&[0, 0, 0, 0, 1], 0), Some((1, 4)));
    assert_eq!(find_start_code(&[0, 0, 1, 7, 0, 0, 1], 1), Some((4, 3)));
}

#[test]
fn finds_no_start_code() {
    assert_eq!(find_start_code(&[], 0), None);
    assert_eq!(find_start_code(&[0, 0], 0), None);
    assert_eq!(find_start_code(&[0, 0, 2, 0, 1, 0], 0), None);
    assert_eq!(find_start_code(&[0, 0, 1], 1), None);
    assert_eq!(find_start_code(&[0, 0, 1], 10), None);
}

#[test]
fn nal_type_is_bits_one_to_six_of_the_first_byte() {
    assert_eq!(hevc_nal_type(&[0x40, 0x01]), Some(32));
    assert_eq!(hevc_nal_type(&[0x26, 0x01]), Some(19));
    assert_eq!(hevc_nal_type(&[0x02]), Some(1));
    assert_eq!(hevc_nal_type(&[0xFF]), Some(63));
    assert_eq!(hevc_nal_type(&[]), None);
}

#[test]
fn keyframe_types() {
    for t in [32u8, 33, 34, 19, 20, 21] {
        assert!(is_keyframe_nal(&[t << 1, 1]), "type {t}");
    }
    for t in [0u8, 1, 18, 22, 35, 63] {
        assert!(!is_keyframe_nal(&[t << 1, 1]), "type {t}");
    }
    assert!(!is_keyframe_nal(&[]));
}

#[test]
fn complete_nals_are_taken_and_the_tail_kept() {
    let stream = [
        0, 0, 0, 1, 0x40, 0x01, 0x0C, // VPS, 4-byte start code
        0, 0, 1, 0x02, 0x01, 0xAF, // trailing picture, 3-byte start code
        0, 0, 1, 0x26, 0x01, // IDR, not yet complete
    ];
    let (nals, consumed) = take_complete_nals(&stream);
    assert_eq!(nals.len(), 2);
    assert_eq!(nals[0].data, vec![0, 0, 0, 1, 0x40, 0x01, 0x0C]);
    assert!(nals[0].is_keyframe);
    assert_eq!(nals[1].data, vec![0, 0, 1, 0x02, 0x01, 0xAF]);
    assert!(!nals[1].is_keyframe);
    assert_eq!(consumed, 13);
}

#[test]
fn bytes_before_the_first_start_code_are_dropped() {
    let stream = [7, 7, 0, 0, 1, 0x26, 0x01, 0, 0, 1, 0x40];
    let (nals, consumed) = take_complete_nals(&stream);
    assert_eq!(nals.len(), 1);
    assert_eq!(nals[0].data, vec![0, 0, 1, 0x26, 0x01]);
    assert!(nals[0].is_keyframe);
    assert_eq!(consumed, 7);
}

#[test]
fn nothing_is_taken_without_a_complete_nal() {
    assert_eq!(take_complete_nals(&[]).1, 0);
    let (nals, consumed) = take_complete_nals(&[1, 2, 3, 4, 5]);
    assert!(nals.is_empty());
    assert_eq!(consumed, 0);
    let (nals, consumed) = take_complete_nals(&[9, 9, 0, 0, 1, 0x40, 0x01]);
    assert!(nals.is_empty());
    assert_eq!(consumed, 0);
}

#[test]
fn split_units_concatenate_to_the_consumed_bytes() {
    let mut stream = vec![5, 5];
    for k in 0..20u8 {
        if k % 3 == 0 {
            stream.extend_from_slice(&[0, 0, 0, 1]);
        } else {
            stream.extend_from_slice(&[0, 0, 1]);
        }
        stream.extend_from_slice(&[k << 1, 1, 0xAA, k]);
    }
    let (nals, consumed) = take_complete_nals(&stream);
    assert_eq!(nals.len(), 19);
    let joined: Vec<u8> = nals.iter().flat_map(|n| n.data.iter().copied()).collect();
    assert_eq!(joined, stream[2..consumed].to_vec());
    for n in &nals {
        assert!(n.data.starts_with(&[0, 0, 1]) || n.data.starts_with(&[0, 0, 0, 1]));
    }
    let (rest, _) = take_complete_nals(&stream[consumed..]);
    assert!(rest.is_empty());
}

use wifi_display_server::annexb::take_access_units;

const VPS: [u8; 7] = [0, 0, 0, 1, 0x40, 0x01, 0x0C];
const SPS: [u8; 6] = [0, 0, 1, 0x42, 0x01, 0x01];
const PPS: [u8; 6] = [0, 0, 1, 0x44, 0x01, 0xC0];
const IDR: [u8; 7] = [0, 0, 1, 0x26, 0x01, 0xAF, 0x11];
const P1: [u8; 7] = [0, 0, 1, 0x02, 0x01, 0xD0, 0x22];
const P1_SECOND_SLICE: [u8; 7] = [0, 0, 1, 0x02, 0x01, 0x50, 0x33];
const P2: [u8; 7] = [0, 0, 1, 0x02, 0x01, 0xD0, 0x44];

fn cat(parts: &[&[u8]]) -> Vec<u8> {
    parts.iter().flat_map(|p| p.iter().copied()).collect()
}

#[test]
fn access_units_group_all_nals_of_a_frame() {
    let stream = cat(&[&VPS, &SPS, &PPS, &IDR, &P1, &P2]);
    let (aus, consumed) = take_access_units(&stream);
    assert_eq!(aus.len(), 2);
    assert_eq!(aus[0].data, cat(&[&VPS, &SPS, &PPS, &IDR]));
    assert!(aus[0].is_keyframe);
    assert_eq!(aus[1].data, P1.to_vec());
    assert!(!aus[1].is_keyframe);
    assert_eq!(consumed, VPS.len() + SPS.len() + PPS.len() + IDR.len() + P1.len());
}

#[test]
fn later_slices_of_a_picture_stay_in_its_access_unit() {
    let stream = cat(&[&P1, &P1_SECOND_SLICE, &P2, &[0, 0, 1, 0x02, 0x01, 0xD0]]);
    let (aus, consumed) = take_access_units(&stream);
    assert_eq!(aus.len(), 2);
    assert_eq!(aus[0].data, cat(&[&P1, &P1_SECOND_SLICE]));
    assert_eq!(aus[1].data, P2.to_vec());
    assert_eq!(consumed, P1.len() + P1_SECOND_SLICE.len() + P2.len());
}

#[test]
fn a_parameter_set_after_a_slice_opens_the_next_access_unit() {
    let stream = cat(&[&IDR, &VPS, &SPS, &PPS, &IDR, &[0, 0, 1, 0x46, 0x01]]);
    let (aus, consumed) = take_access_units(&stream);
    assert_eq!(aus.len(), 2);
    assert_eq!(aus[0].data, IDR.to_vec());
    assert_eq!(aus[1].data, cat(&[&VPS, &SPS, &PPS, &IDR]));
    assert!(aus[1].is_keyframe);
    assert_eq!(consumed, stream.len() - 5);
}

#[test]
fn an_access_unit_waits_for_the_start_of_the_next() {
    // The unit after the IDR slice has not shown its header yet.
    let stream = cat(&[&[9, 9], &VPS, &SPS, &PPS, &IDR, &[0, 0, 1]]);
    let (aus, consumed) = take_access_units(&stream);
    assert!(aus.is_empty());
    assert_eq!(consumed, 0);
    // A suffix SEI (type 40) does not open a new access unit.
    let stream = cat(&[&IDR, &[0, 0, 1, 0x50, 0x01, 0x00], &[0, 0, 1, 0x50]]);
    let (aus, consumed) = take_access_units(&stream);
    assert!(aus.is_empty());
    assert_eq!(consumed, 0);
    assert!(take_access_units(&[]).0.is_empty());
}

#[test]
fn access_units_concatenate_to_the_consumed_bytes() {
    let stream = cat(&[&[7, 7, 7], &VPS, &SPS, &PPS, &IDR, &P1, &P1_SECOND_SLICE, &P2, &P1, &VPS]);
    let (aus, consumed) = take_access_units(&stream);
    assert_eq!(aus.len(), 4);
    let joined: Vec<u8> = aus.iter().flat_map(|a| a.data.iter().copied()).collect();
    assert_eq!(joined, stream[3..consumed].to_vec());
}

#[test]
fn splitting_piecewise_matches_splitting_whole() {
    let stream = cat(&[&VPS, &SPS, &PPS, &IDR, &P1, &P1_SECOND_SLICE, &P2, &P1, &VPS, &SPS, &PPS, &IDR, &P2]);
    let (whole, _) = take_access_units(&stream);
    for chunk in [1usize, 2, 3, 5, 8, 13] {
        let mut buf = Vec::new();
        let mut got = Vec::new();
        for piece in stream.chunks(chunk) {
            buf.extend_from_slice(piece);
            let (aus, consumed) = take_access_units(&buf);
            got.extend(aus.into_iter().map(|a| (a.data, a.is_keyframe)));
            buf.drain(0..consumed);
        }
        let expected: Vec<(Vec<u8>, bool)> = whole.iter().map(|a| (a.data.clone(), a.is_keyframe)).collect();
        assert_eq!(got, expected, "chunk {chunk}");
    }
}

#[test]
fn a_later_search_start_finds_the_same_start_code() {
    let buf = [5, 5, 5, 0, 0, 0, 1, 9];
    let found = find_start_code(&buf, 0);
    assert_eq!(found, Some((3, 4)));
    for j in 0..=3 {
        assert_eq!(find_start_code(&buf, j), found);
    }
}

#[test]
fn scanning_from_later_up_to_the_hit_finds_the_same_start_code() {
    let buf = [7, 9, 0, 0, 0, 1, 0x40, 0, 0, 1, 0x26];
    let first = find_start_code(&buf, 0);
    assert_eq!(first, Some((2, 4)));
    for j in 0..=2 {
        assert_eq!(find_start_code(&buf, j), first);
    }
    assert_eq!(find_start_code(&buf, 3), Some((3, 3)));
    assert_eq!(find_start_code(&buf, 4), Some((7, 3)));
    assert_eq!(find_start_code(&buf, buf.len()), None);
    assert_eq!(find_start_code(&buf, usize::MAX), None);
}
