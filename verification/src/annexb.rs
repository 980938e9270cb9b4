//! Splitting an HEVC Annex-B byte stream into NAL units.
//!
//! NAL units are delimited by start codes `00 00 01` or `00 00 00 01`. A NAL
//! unit is complete once the next start code has arrived; it is emitted with
//! its own start code prefix included, so that a decoder can take it as is.

use crate::encoder::EncodedNal;
use vstd::prelude::*;

verus! {

/// Length of the start code that begins at `i` (3 or 4), or 0 if none does.
pub open spec fn start_code_len(buf: Seq<u8>, i: int) -> int {
    if 0 <= i && i + 3 <= buf.len() && buf[i] == 0 && buf[i + 1] == 0 {
        if buf[i + 2] == 1 {
            3
        } else if i + 4 <= buf.len() && buf[i + 2] == 0 && buf[i + 3] == 1 {
            4
        } else {
            0
        }
    } else {
        0
    }
}

/// The first start code at or after `from`: its offset and its length.
pub open spec fn first_start_code(buf: Seq<u8>, from: int) -> Option<(int, int)>
    decreases buf.len() - from,
{
    if from < 0 || from + 3 > buf.len() {
        None
    } else if start_code_len(buf, from) > 0 {
        Some((from, start_code_len(buf, from)))
    } else {
        first_start_code(buf, from + 1)
    }
}

/// What `first_start_code` finds is a start code at or after `from`, and no
/// start code begins between `from` and it; when it finds none, there is none.
pub proof fn lemma_first_start_code(buf: Seq<u8>, from: int)
    requires
        0 <= from,
    ensures
        first_start_code(buf, from) matches Some((i, l)) ==> {
            &&& from <= i
            &&& l == start_code_len(buf, i)
            &&& (l == 3 || l == 4)
            &&& i + l <= buf.len()
            &&& forall|j: int| from <= j < i ==> start_code_len(buf, j) == 0
        },
        first_start_code(buf, from) is None ==> forall|j: int|
            from <= j ==> start_code_len(buf, j) == 0,
    decreases buf.len() - from,
{
    if from + 3 > buf.len() {
    } else if start_code_len(buf, from) > 0 {
    } else {
        lemma_first_start_code(buf, from + 1);
        if let Some((i, l)) = first_start_code(buf, from) {
            assert forall|j: int| from <= j < i implies start_code_len(buf, j) == 0 by {
                if j > from {
                }
            }
        } else {
            assert forall|j: int| from <= j implies start_code_len(buf, j) == 0 by {
                if j > from {
                }
            }
        }
    }
}

/// Locates the next Annex-B start code at or after `from`. Returns the offset
/// of the first 0x00 of the prefix and the prefix length (3 or 4).
pub fn find_start_code(buf: &[u8], from: usize) -> (found: Option<(usize, usize)>)
    ensures
        match found {
            Some((i, l)) => first_start_code(buf@, from as int) == Some((i as int, l as int)),
            None => first_start_code(buf@, from as int) is None,
        },
{
    let mut i = from;
    while i < buf.len() && buf.len() - i >= 3
        invariant
            from <= i,
            first_start_code(buf@, from as int) == first_start_code(buf@, i as int),
        decreases buf.len() - i,
    {
        if buf[i] == 0 && buf[i + 1] == 0 {
            if buf[i + 2] == 1 {
                return Some((i, 3));
            }
            if buf.len() - i >= 4 && buf[i + 2] == 0 && buf[i + 3] == 1 {
                return Some((i, 4));
            }
        }
        i += 1;
    }
    None
}

/// The HEVC `nal_unit_type` of a NAL unit without its start code: bits 1..7
/// of its first byte.
pub open spec fn hevc_nal_type_spec(nal: Seq<u8>) -> Option<u8> {
    if nal.len() == 0 {
        None
    } else {
        Some(((nal[0] / 2) % 64) as u8)
    }
}

/// HEVC NAL header is 2 bytes; `nal_unit_type` is bits [1..7] of the first byte.
pub fn hevc_nal_type(nal: &[u8]) -> (t: Option<u8>)
    ensures
        t == hevc_nal_type_spec(nal@),
{
    if nal.len() == 0 {
        None
    } else {
        let b = nal[0];
        assert((b >> 1) & 0x3f == (b / 2) % 64) by (bit_vector);
        Some((b >> 1) & 0x3f)
    }
}

/// Whether a NAL unit type marks a keyframe: VPS, SPS, PPS (32, 33, 34) or an
/// IDR/CRA picture (19, 20, 21).
pub open spec fn is_keyframe_type(t: Option<u8>) -> bool {
    match t {
        Some(v) => v == 32 || v == 33 || v == 34 || v == 19 || v == 20 || v == 21,
        None => false,
    }
}

/// Whether a NAL unit (without start code) is a keyframe unit.
pub fn is_keyframe_nal(nal: &[u8]) -> (k: bool)
    ensures
        k == is_keyframe_type(hevc_nal_type_spec(nal@)),
{
    match hevc_nal_type(nal) {
        Some(t) => t == 32 || t == 33 || t == 34 || t == 19 || t == 20 || t == 21,
        None => false,
    }
}

/// The complete NAL units of `buf` from offset `pos` on, each with its
/// keyframe flag, and the offset up to which `buf` has been consumed.
pub open spec fn split_spec(buf: Seq<u8>, pos: int) -> (Seq<(Seq<u8>, bool)>, int)
    decreases buf.len() - pos,
{
    if pos < 0 {
        (Seq::empty(), pos)
    } else {
        match first_start_code(buf, pos) {
            None => (Seq::empty(), pos),
            Some((start, l)) => match first_start_code(buf, start + l) {
                None => (Seq::empty(), pos),
                Some((next, _)) => {
                    proof {
                        lemma_first_start_code(buf, pos);
                        lemma_first_start_code(buf, start + l);
                    }
                    let rest = split_spec(buf, next);
                    (
                        seq![
                            (
                                buf.subrange(start, next),
                                is_keyframe_type(hevc_nal_type_spec(buf.subrange(start + l, next))),
                            ),
                        ] + rest.0,
                        rest.1,
                    )
                },
            },
        }
    }
}

/// The view of an encoded NAL: its bytes and its keyframe flag.
pub open spec fn nal_view(n: EncodedNal) -> (Seq<u8>, bool) {
    (n.data@, n.is_keyframe)
}

/// Takes every complete NAL unit out of the front of `buf`. Returns them,
/// each with its start code prefix and its keyframe flag, and the number of
/// leading bytes of `buf` that may now be dropped: bytes before the first
/// start code and the units returned. What remains holds at most one start
/// code, of a unit whose end has not arrived yet.
pub fn take_complete_nals(buf: &[u8]) -> (res: (Vec<EncodedNal>, usize))
    requires
    ensures
        res.0@.map_values(|n: EncodedNal| nal_view(n)) == split_spec(buf@, 0).0,
        res.1 as int == split_spec(buf@, 0).1,
{
    let mut nals: Vec<EncodedNal> = Vec::new();
    let mut pos: usize = 0;
    loop
        invariant
            pos <= buf.len(),
            nals@.map_values(|n: EncodedNal| nal_view(n)) + split_spec(buf@, pos as int).0
                == split_spec(buf@, 0).0,
            split_spec(buf@, pos as int).1 == split_spec(buf@, 0).1,
        ensures
            split_spec(buf@, pos as int).0 == Seq::<(Seq<u8>, bool)>::empty(),
            split_spec(buf@, pos as int).1 == pos,
            nals@.map_values(|n: EncodedNal| nal_view(n)) == split_spec(buf@, 0).0,
            split_spec(buf@, pos as int).1 == split_spec(buf@, 0).1,
        decreases buf.len() - pos,
    {
        proof {
            lemma_first_start_code(buf@, pos as int);
        }
        let (start, prefix_len) = match find_start_code(buf, pos) {
            Some(found) => found,
            None => {
                proof {
                    assert(nals@.map_values(|n: EncodedNal| nal_view(n)) =~= nals@.map_values(
                        |n: EncodedNal| nal_view(n),
                    ) + split_spec(buf@, pos as int).0);
                }
                break;
            },
        };
        let nal_data_start = start + prefix_len;
        proof {
            lemma_first_start_code(buf@, nal_data_start as int);
        }
        let nal_end = match find_start_code(buf, nal_data_start) {
            Some((next_start, _)) => next_start,
            None => {
                proof {
                    assert(nals@.map_values(|n: EncodedNal| nal_view(n)) =~= nals@.map_values(
                        |n: EncodedNal| nal_view(n),
                    ) + split_spec(buf@, pos as int).0);
                }
                break;
            },
        };
        let nal_bytes = vstd::slice::slice_to_vec(&buf[start..nal_end]);
        let is_keyframe = is_keyframe_nal(&buf[nal_data_start..nal_end]);
        let ghost old_nals = nals@;
        nals.push(EncodedNal { data: nal_bytes, is_keyframe });
        proof {
            assert(nals@.map_values(|n: EncodedNal| nal_view(n)) =~= old_nals.map_values(
                |n: EncodedNal| nal_view(n),
            ).push((buf@.subrange(start as int, nal_end as int), is_keyframe)));
        }
        pos = nal_end;
    }
    (nals, pos)
}

} // verus!

verus! {

/// The bytes of the units produced by `split_spec`, back to back.
pub open spec fn units_bytes(units: Seq<(Seq<u8>, bool)>) -> Seq<u8> {
    units.map_values(|u: (Seq<u8>, bool)| u.0).flatten()
}

/// Splitting loses nothing and invents nothing: the units, back to back, are
/// exactly the bytes from the first start code up to the consumed offset;
/// each unit begins with a start code; nothing is consumed when no unit is
/// complete; and after the consumed offset no complete unit remains.
pub proof fn lemma_split_units(buf: Seq<u8>, pos: int)
    requires
        0 <= pos <= buf.len(),
    ensures
        pos <= split_spec(buf, pos).1 <= buf.len(),
        split_spec(buf, pos).0.len() == 0 ==> split_spec(buf, pos).1 == pos,
        split_spec(buf, pos).0.len() > 0 ==> (first_start_code(buf, pos) matches Some((s, _))
            && units_bytes(split_spec(buf, pos).0) == buf.subrange(s, split_spec(buf, pos).1)),
        forall|k: int|
            0 <= k < split_spec(buf, pos).0.len() ==> start_code_len(
                #[trigger] split_spec(buf, pos).0[k].0,
                0,
            ) > 0,
        match first_start_code(buf, split_spec(buf, pos).1) {
            None => true,
            Some((s, l)) => first_start_code(buf, s + l) is None,
        },
        split_spec(buf, pos).0.len() > 0 ==> start_code_len(buf, split_spec(buf, pos).1) > 0,
    decreases buf.len() - pos,
{
    lemma_first_start_code(buf, pos);
    match first_start_code(buf, pos) {
        None => {},
        Some((start, l)) => {
            lemma_first_start_code(buf, start + l);
            match first_start_code(buf, start + l) {
                None => {
                    assert(first_start_code(buf, pos) == Some((start, l)));
                },
                Some((next, _)) => {
                    lemma_split_units(buf, next);
                    let rest = split_spec(buf, next);
                    let unit = buf.subrange(start, next);
                    let units = split_spec(buf, pos).0;
                    assert(units == seq![
                        (unit, is_keyframe_type(hevc_nal_type_spec(buf.subrange(start + l, next)))),
                    ] + rest.0);
                    assert(start_code_len(unit, 0) == start_code_len(buf, start));
                    assert forall|k: int| 0 <= k < units.len() implies start_code_len(
                        #[trigger] units[k].0,
                        0,
                    ) > 0 by {
                        if k > 0 {
                            assert(units[k] == rest.0[k - 1]);
                        }
                    }
                    let m = units.map_values(|u: (Seq<u8>, bool)| u.0);
                    assert(m.drop_first() =~= rest.0.map_values(|u: (Seq<u8>, bool)| u.0));
                    assert(m.first() == unit);
                    if rest.0.len() == 0 {
                        assert(rest.0.map_values(|u: (Seq<u8>, bool)| u.0) =~= Seq::<
                            Seq<u8>,
                        >::empty());
                        assert(m.drop_first().flatten() =~= Seq::<u8>::empty());
                        assert(units_bytes(units) =~= unit);
                    } else {
                        lemma_first_start_code(buf, next);
                        assert(first_start_code(buf, next) == Some((next, start_code_len(buf, next))));
                        assert(unit + buf.subrange(next, rest.1) =~= buf.subrange(start, rest.1));
                    }
                },
            }
        },
    }
}

} // verus!

verus! {

/// The NAL unit of `unit` without its start code prefix.
pub open spec fn nal_payload(unit: Seq<u8>) -> Seq<u8> {
    unit.skip(start_code_len(unit, 0))
}

/// Whether a NAL unit (without start code) is a VCL unit, one that carries a
/// slice of a picture: `nal_unit_type` below 32.
pub open spec fn is_vcl_nal(payload: Seq<u8>) -> bool {
    match hevc_nal_type_spec(payload) {
        Some(t) => t < 32,
        None => false,
    }
}

/// Whether a NAL unit (without start code) opens a new access unit when it
/// follows a VCL unit: an access unit delimiter (35), a VPS, SPS or PPS
/// (32..=34), a prefix SEI (39), a unit of type 41..=44 or 48..=55, or the
/// first slice segment of a picture (`first_slice_segment_in_pic_flag`, the
/// top bit of the byte after the two-byte header, set).
pub open spec fn starts_access_unit(payload: Seq<u8>) -> bool {
    match hevc_nal_type_spec(payload) {
        Some(t) => t == 35 || (32 <= t && t <= 34) || t == 39 || (41 <= t && t <= 44) || (48 <= t
            && t <= 55) || (t < 32 && payload.len() >= 3 && payload[2] >= 128),
        None => false,
    }
}

/// Whether the unit at `j` (or, at `j == units.len()`, the partial unit
/// `look` that follows the complete ones) opens a new access unit.
pub open spec fn opens_au(units: Seq<(Seq<u8>, bool)>, look: Seq<u8>, j: int) -> bool {
    if j < units.len() {
        starts_access_unit(nal_payload(units[j].0))
    } else {
        starts_access_unit(look)
    }
}

/// The end (exclusive) of the access unit being scanned: the first index at
/// or after `j` that opens a new access unit once a VCL unit has been seen.
pub open spec fn au_end(units: Seq<(Seq<u8>, bool)>, look: Seq<u8>, j: int, seen_vcl: bool) -> Option<int>
    decreases units.len() - j,
{
    if j < 0 || j > units.len() {
        None
    } else if seen_vcl && opens_au(units, look, j) {
        Some(j)
    } else if j == units.len() {
        None
    } else {
        au_end(units, look, j + 1, seen_vcl || is_vcl_nal(nal_payload(units[j].0)))
    }
}

/// The end of an access unit lies between the scan position and the last unit.
pub proof fn lemma_au_end_bounds(units: Seq<(Seq<u8>, bool)>, look: Seq<u8>, j: int, seen_vcl: bool)
    ensures
        au_end(units, look, j, seen_vcl) matches Some(e) ==> j <= e <= units.len(),
    decreases units.len() - j,
{
    if 0 <= j < units.len() && !(seen_vcl && opens_au(units, look, j)) {
        lemma_au_end_bounds(units, look, j + 1, seen_vcl || is_vcl_nal(nal_payload(units[j].0)));
    }
}

/// The access unit made of units `s..e`: their bytes back to back, and
/// whether any of them is a keyframe unit.
pub open spec fn access_unit(units: Seq<(Seq<u8>, bool)>, s: int, e: int) -> (Seq<u8>, bool) {
    (units_bytes(units.subrange(s, e)), exists|m: int| s <= m < e && #[trigger] units[m].1)
}

/// The complete access units from unit `s` on, and the index of the first
/// unit not in one.
pub open spec fn group_spec(units: Seq<(Seq<u8>, bool)>, look: Seq<u8>, s: int) -> (Seq<(Seq<u8>, bool)>, int)
    decreases units.len() - s,
{
    if s < 0 || s >= units.len() {
        (Seq::empty(), s)
    } else {
        match au_end(units, look, s + 1, is_vcl_nal(nal_payload(units[s].0))) {
            None => (Seq::empty(), s),
            Some(e) => {
                proof {
                    lemma_au_end_bounds(units, look, s + 1, is_vcl_nal(nal_payload(units[s].0)));
                }
                let rest = group_spec(units, look, e);
                (seq![access_unit(units, s, e)] + rest.0, rest.1)
            },
        }
    }
}

/// Grouping from `s` stops at a unit index between `s` and the last unit.
pub proof fn lemma_group_bounds(units: Seq<(Seq<u8>, bool)>, look: Seq<u8>, s: int)
    requires
        0 <= s <= units.len(),
    ensures
        s <= group_spec(units, look, s).1 <= units.len(),
    decreases units.len() - s,
{
    if s < units.len() {
        lemma_au_end_bounds(units, look, s + 1, is_vcl_nal(nal_payload(units[s].0)));
        if let Some(e) = au_end(units, look, s + 1, is_vcl_nal(nal_payload(units[s].0))) {
            lemma_group_bounds(units, look, e);
        }
    }
}

/// Offset of the first start code of `buf`, or 0 when there is none.
pub open spec fn first_start_pos(buf: Seq<u8>) -> int {
    match first_start_code(buf, 0) {
        Some((i, _)) => i,
        None => 0,
    }
}

/// The complete access units at the front of `buf`, and the number of
/// leading bytes that may be dropped: up to the end of the last of them, or
/// none when there is none. The last complete NAL unit closes an access unit
/// only once the unit after it (possibly still partial) shows that it opens
/// a new one.
pub open spec fn access_units_spec(buf: Seq<u8>) -> (Seq<(Seq<u8>, bool)>, int) {
    let units = split_spec(buf, 0).0;
    let c = split_spec(buf, 0).1;
    let look = buf.skip(c + start_code_len(buf, c));
    let grouped = group_spec(units, look, 0);
    (
        grouped.0,
        if grouped.0.len() == 0 {
            0
        } else {
            first_start_pos(buf) + units_bytes(units.take(grouped.1)).len()
        },
    )
}

proof fn lemma_units_bytes_extend(units: Seq<(Seq<u8>, bool)>, s: int, j: int)
    requires
        0 <= s <= j < units.len(),
    ensures
        units_bytes(units.subrange(s, j + 1)) == units_bytes(units.subrange(s, j)) + units[j].0,
{
    let f = |u: (Seq<u8>, bool)| u.0;
    assert(units.subrange(s, j + 1).map_values(f) =~= units.subrange(s, j).map_values(f).push(
        units[j].0,
    ));
    units.subrange(s, j).map_values(f).lemma_flatten_push(units[j].0);
}

proof fn lemma_units_bytes_prefix_len(units: Seq<(Seq<u8>, bool)>, j: int)
    requires
        0 <= j <= units.len(),
    ensures
        units_bytes(units.take(j)).len() <= units_bytes(units).len(),
{
    let f = |u: (Seq<u8>, bool)| u.0;
    assert(units.map_values(f) =~= units.take(j).map_values(f) + units.skip(j).map_values(f));
    vstd::seq_lib::lemma_flatten_concat(units.take(j).map_values(f), units.skip(j).map_values(f));
}

/// Whether a NAL unit (without start code) is a VCL unit.
fn is_vcl_payload(payload: &[u8]) -> (vcl: bool)
    ensures
        vcl == is_vcl_nal(payload@),
{
    match hevc_nal_type(payload) {
        Some(t) => t < 32,
        None => false,
    }
}

/// Whether a NAL unit (without start code) opens a new access unit after a
/// VCL unit.
fn starts_access_unit_payload(payload: &[u8]) -> (opens: bool)
    ensures
        opens == starts_access_unit(payload@),
{
    match hevc_nal_type(payload) {
        Some(t) => t == 35 || (32 <= t && t <= 34) || t == 39 || (41 <= t && t <= 44) || (48 <= t
            && t <= 55) || (t < 32 && payload.len() >= 3 && payload[2] >= 128),
        None => false,
    }
}

/// The NAL unit of a unit that begins with a start code, without that code.
fn payload_of(unit: &[u8]) -> (payload: &[u8])
    requires
        start_code_len(unit@, 0) > 0,
    ensures
        payload@ == nal_payload(unit@),
{
    let l: usize = if unit[2] == 1 {
        3
    } else {
        4
    };
    vstd::slice::slice_subrange(unit, l, unit.len())
}

/// Takes every complete access unit (all NAL units of one frame, with their
/// start codes) out of the front of an HEVC Annex-B byte stream. Returns
/// them, each flagged as a keyframe when it holds a VPS, SPS, PPS or IDR/CRA
/// unit, and the number of leading bytes of `buf` that may now be dropped.
pub fn take_access_units(buf: &[u8]) -> (res: (Vec<EncodedNal>, usize))
    requires
    ensures
        res.0@.map_values(|n: EncodedNal| nal_view(n)) == access_units_spec(buf@).0,
        res.1 as int == access_units_spec(buf@).1,
{
    let ghost units = split_spec(buf@, 0).0;
    let (nals, c) = take_complete_nals(buf);
    proof {
        lemma_split_units(buf@, 0);
        assert(nals@.len() == units.len());
        assert forall|k: int| 0 <= k < units.len() implies #[trigger] units[k] == nal_view(
            nals@[k],
        ) by {
            assert(nals@.map_values(|n: EncodedNal| nal_view(n))[k] == nal_view(nals@[k]));
        }
    }
    let n = nals.len();
    if n == 0 {
        proof {
            assert(group_spec(units, buf@.skip(c + start_code_len(buf@, c as int)), 0).0.len() == 0);
        }
        return (Vec::new(), 0);
    }
    assert(start_code_len(buf@, c as int) > 0);
    assert(c + 3 <= buf.len());
    let look_start = if buf[c + 2] == 1 {
        c + 3
    } else {
        c + 4
    };
    let look = vstd::slice::slice_subrange(buf, look_start, buf.len());
    let ghost lk = look@;
    assert(lk == buf@.skip(c + start_code_len(buf@, c as int)));
    let start0 = match find_start_code(buf, 0) {
        Some((i, _)) => i,
        None => 0,
    };
    proof {
        lemma_first_start_code(buf@, 0);
        assert(units_bytes(units) == buf@.subrange(start0 as int, c as int));
    }

    let mut aus: Vec<EncodedNal> = Vec::new();
    let mut s: usize = 0;
    let mut data: Vec<u8> = Vec::new();
    data.extend_from_slice(nals[0].data.as_slice());
    let mut seen = is_vcl_payload(payload_of(nals[0].data.as_slice()));
    let mut key = nals[0].is_keyframe;
    let mut done: usize = 0;
    let mut j: usize = 1;
    proof {
        assert(units.subrange(0, 1).map_values(|u: (Seq<u8>, bool)| u.0) =~= seq![units[0].0]);
        units.subrange(0, 1).map_values(|u: (Seq<u8>, bool)| u.0).lemma_flatten_singleton();
        assert(units.take(0).map_values(|u: (Seq<u8>, bool)| u.0) =~= Seq::<Seq<u8>>::empty());
        assert(units.take(1) =~= units.subrange(0, 1));
        assert(units[0] == nal_view(nals@[0]));
        assert(units[0].1 == key);
        assert(key == (exists|m: int| 0 <= m < 1 && #[trigger] units[m].1));
    }
    loop
        invariant_except_break
            s < j <= n,
            au_end(units, lk, s + 1, is_vcl_nal(nal_payload(units[s as int].0))) == au_end(
                units,
                lk,
                j as int,
                seen,
            ),
            data@ == units_bytes(units.subrange(s as int, j as int)),
            key == (exists|m: int| s <= m < j && #[trigger] units[m].1),
            done == units_bytes(units.take(s as int)).len(),
            done + data@.len() == units_bytes(units.take(j as int)).len(),
            aus@.map_values(|a: EncodedNal| nal_view(a)) + group_spec(units, lk, s as int).0
                == group_spec(units, lk, 0).0,
            group_spec(units, lk, s as int).1 == group_spec(units, lk, 0).1,
            aus@.len() == 0 ==> s == 0,
        invariant
            n == nals.len(),
            n == units.len(),
            n > 0,
            forall|k: int| 0 <= k < n ==> #[trigger] units[k] == nal_view(nals@[k]),
            forall|k: int| 0 <= k < n ==> start_code_len(#[trigger] units[k].0, 0) > 0,
            units == split_spec(buf@, 0).0,
            lk == look@,
            units_bytes(units) == buf@.subrange(start0 as int, c as int),
            c <= buf.len(),
            start0 <= c,
        ensures
            aus@.map_values(|a: EncodedNal| nal_view(a)) == group_spec(units, lk, 0).0,
            aus@.len() > 0 ==> done == units_bytes(units.take(group_spec(units, lk, 0).1)).len(),
            aus@.len() == 0 ==> group_spec(units, lk, 0).0.len() == 0,
        decreases n - j,
    {
        proof {
            lemma_units_bytes_prefix_len(units, j as int);
        }
        let opens = if j < n {
            starts_access_unit_payload(payload_of(nals[j].data.as_slice()))
        } else {
            starts_access_unit_payload(look)
        };
        if seen && opens {
            let ghost old_aus = aus@;
            let ghost au = access_unit(units, s as int, j as int);
            assert(data@ == au.0);
            assert(key == au.1);
            aus.push(EncodedNal { data, is_keyframe: key });
            proof {
                lemma_au_end_bounds(units, lk, s + 1, is_vcl_nal(nal_payload(units[s as int].0)));
                assert(group_spec(units, lk, s as int).0 == seq![au] + group_spec(units, lk, j as int).0);
                assert(aus@.map_values(|a: EncodedNal| nal_view(a)) =~= old_aus.map_values(
                    |a: EncodedNal| nal_view(a),
                ).push(au));
                assert(aus@.map_values(|a: EncodedNal| nal_view(a)) + group_spec(units, lk, j as int).0
                    =~= old_aus.map_values(|a: EncodedNal| nal_view(a)) + group_spec(units, lk, s as int).0);
            }
            done = done + au_len(&aus, aus.len() - 1);
            if j == n {
                proof {
                    assert(group_spec(units, lk, j as int).0 =~= Seq::<(Seq<u8>, bool)>::empty());
                    assert(aus@.map_values(|a: EncodedNal| nal_view(a)) =~= aus@.map_values(
                        |a: EncodedNal| nal_view(a),
                    ) + group_spec(units, lk, j as int).0);
                }
                break;
            }
            s = j;
            data = Vec::new();
            data.extend_from_slice(nals[j].data.as_slice());
            seen = is_vcl_payload(payload_of(nals[j].data.as_slice()));
            key = nals[j].is_keyframe;
            proof {
                lemma_units_bytes_extend(units, j as int, j as int);
                lemma_units_bytes_extend(units, 0, j as int);
                assert(units.subrange(j as int, j as int).map_values(|u: (Seq<u8>, bool)| u.0)
                    =~= Seq::<Seq<u8>>::empty());
                assert(units.take(j as int + 1) =~= units.subrange(0, j as int + 1));
                assert(units.take(j as int) =~= units.subrange(0, j as int));
                assert(units[j as int] == nal_view(nals@[j as int]));
                assert(units[j as int].1 == key);
                assert(key == (exists|m: int| j <= m < j + 1 && #[trigger] units[m].1));
            }
            j = j + 1;
        } else {
            if j == n {
                proof {
                    assert(group_spec(units, lk, s as int).0 =~= Seq::<(Seq<u8>, bool)>::empty());
                    assert(aus@.map_values(|a: EncodedNal| nal_view(a)) =~= aus@.map_values(
                        |a: EncodedNal| nal_view(a),
                    ) + group_spec(units, lk, s as int).0);
                }
                break;
            }
            let ghost old_key = key;
            data.extend_from_slice(nals[j].data.as_slice());
            seen = seen || is_vcl_payload(payload_of(nals[j].data.as_slice()));
            key = key || nals[j].is_keyframe;
            proof {
                lemma_units_bytes_extend(units, s as int, j as int);
                lemma_units_bytes_extend(units, 0, j as int);
                assert(units.take(j as int + 1) =~= units.subrange(0, j as int + 1));
                assert(units.take(j as int) =~= units.subrange(0, j as int));
                assert(units[j as int] == nal_view(nals@[j as int]));
                assert(units[j as int].1 == nals@[j as int].is_keyframe);
                if old_key {
                    let m0 = choose|m: int| s <= m < j && #[trigger] units[m].1;
                    assert(s <= m0 < j + 1 && units[m0].1);
                } else if units[j as int].1 {
                    assert(s <= j < j + 1 && units[j as int].1);
                } else {
                    assert forall|m: int| s <= m < j + 1 implies !#[trigger] units[m].1 by {
                        if m < j {
                        }
                    }
                }
            }
            j = j + 1;
        }
    }
    proof {
        lemma_group_bounds(units, lk, 0);
        lemma_units_bytes_prefix_len(units, group_spec(units, lk, 0).1);
    }
    let consumed = if aus.len() == 0 {
        0
    } else {
        start0 + done
    };
    (aus, consumed)
}

/// Length of the data of the access unit at `i`.
fn au_len(aus: &Vec<EncodedNal>, i: usize) -> (len: usize)
    requires
        i < aus.len(),
    ensures
        len == aus@[i as int].data@.len(),
{
    aus[i].data.len()
}

} // verus!

verus! {

proof fn lemma_units_bytes_split(units: Seq<(Seq<u8>, bool)>, s: int, e: int, k: int)
    requires
        0 <= s <= e <= k <= units.len(),
    ensures
        units_bytes(units.subrange(s, e)) + units_bytes(units.subrange(e, k)) == units_bytes(
            units.subrange(s, k),
        ),
{
    let f = |u: (Seq<u8>, bool)| u.0;
    assert(units.subrange(s, k).map_values(f) =~= units.subrange(s, e).map_values(f)
        + units.subrange(e, k).map_values(f));
    vstd::seq_lib::lemma_flatten_concat(units.subrange(s, e).map_values(f), units.subrange(e, k).map_values(f));
}

/// The access units grouped from unit `s` on are, back to back, the units
/// from `s` up to where grouping stopped.
pub proof fn lemma_group_bytes(units: Seq<(Seq<u8>, bool)>, look: Seq<u8>, s: int)
    requires
        0 <= s <= units.len(),
    ensures
        units_bytes(group_spec(units, look, s).0) == units_bytes(
            units.subrange(s, group_spec(units, look, s).1),
        ),
    decreases units.len() - s,
{
    lemma_group_bounds(units, look, s);
    let f = |u: (Seq<u8>, bool)| u.0;
    if s == units.len() || au_end(units, look, s + 1, is_vcl_nal(nal_payload(units[s].0))) is None {
        assert(group_spec(units, look, s).0.map_values(f) =~= Seq::<Seq<u8>>::empty());
        assert(units.subrange(s, s).map_values(f) =~= Seq::<Seq<u8>>::empty());
    } else {
        let e = au_end(units, look, s + 1, is_vcl_nal(nal_payload(units[s].0))).unwrap();
        lemma_au_end_bounds(units, look, s + 1, is_vcl_nal(nal_payload(units[s].0)));
        lemma_group_bytes(units, look, e);
        lemma_group_bounds(units, look, e);
        let rest = group_spec(units, look, e);
        let g = group_spec(units, look, s);
        assert(g.0 == seq![access_unit(units, s, e)] + rest.0);
        assert(g.0.map_values(f) =~= seq![access_unit(units, s, e).0] + rest.0.map_values(f));
        vstd::seq_lib::lemma_flatten_concat(seq![access_unit(units, s, e).0], rest.0.map_values(f));
        seq![access_unit(units, s, e).0].lemma_flatten_singleton();
        lemma_units_bytes_split(units, s, e, rest.1);
    }
}

/// Grouping into access units loses nothing and invents nothing: the access
/// units, back to back, are exactly the bytes from the first start code up
/// to the consumed offset, and nothing is consumed when no access unit is
/// complete.
pub proof fn lemma_access_units(buf: Seq<u8>)
    ensures
        0 <= access_units_spec(buf).1 <= buf.len(),
        access_units_spec(buf).0.len() == 0 ==> access_units_spec(buf).1 == 0,
        access_units_spec(buf).0.len() > 0 ==> units_bytes(access_units_spec(buf).0)
            == buf.subrange(first_start_pos(buf), access_units_spec(buf).1),
{
    lemma_split_units(buf, 0);
    let units = split_spec(buf, 0).0;
    let c = split_spec(buf, 0).1;
    let look = buf.skip(c + start_code_len(buf, c));
    let g = group_spec(units, look, 0);
    lemma_group_bounds(units, look, 0);
    if g.0.len() > 0 {
        lemma_group_bytes(units, look, 0);
        lemma_units_bytes_split(units, 0, g.1, units.len() as int);
        assert(units.subrange(0, units.len() as int) =~= units);
        assert(units.take(g.1) =~= units.subrange(0, g.1));
        lemma_first_start_code(buf, 0);
        let s0 = first_start_pos(buf);
        let len = units_bytes(units.take(g.1)).len();
        assert(buf.subrange(s0, c) =~= buf.subrange(s0, s0 + len) + buf.subrange(s0 + len, c));
        assert(units_bytes(units.take(g.1)) =~= buf.subrange(s0, s0 + len));
    }
}

} // verus!

verus! {

/// Starting the search later, but not past the start code found, finds the
/// same start code.
pub proof fn lemma_first_start_code_later(buf: Seq<u8>, from: int, j: int)
    requires
        0 <= from <= j,
        first_start_code(buf, from) matches Some((i, _)) && j <= i,
    ensures
        first_start_code(buf, j) == first_start_code(buf, from),
    decreases j - from,
{
    if from < j {
        assert(start_code_len(buf, from) == 0) by {
            lemma_first_start_code(buf, from);
        }
        lemma_first_start_code_later(buf, from + 1, j);
    }
}

} // verus!

verus! {

proof fn lemma_scl_ext(buf: Seq<u8>, more: Seq<u8>, j: int)
    requires
        0 <= j,
        j + 4 <= buf.len() || start_code_len(buf, j) > 0,
    ensures
        start_code_len(buf + more, j) == start_code_len(buf, j),
{
    let b = buf + more;
    if j + 3 <= buf.len() {
        assert(b[j] == buf[j] && b[j + 1] == buf[j + 1] && b[j + 2] == buf[j + 2]);
        if j + 4 <= buf.len() {
            assert(b[j + 3] == buf[j + 3]);
        }
    }
}

proof fn lemma_fsc_ext(buf: Seq<u8>, more: Seq<u8>, from: int)
    requires
        0 <= from,
        first_start_code(buf, from) is Some,
    ensures
        first_start_code(buf + more, from) == first_start_code(buf, from),
    decreases buf.len() - from,
{
    lemma_first_start_code(buf, from);
    let i = first_start_code(buf, from).unwrap().0;
    if from < i {
        assert(start_code_len(buf, from) == 0);
        lemma_scl_ext(buf, more, from);
        lemma_fsc_ext(buf, more, from + 1);
    } else {
        lemma_scl_ext(buf, more, from);
    }
}

/// Splitting an extended buffer gives the units of the buffer, then those
/// found from where the buffer's splitting stopped.
proof fn lemma_split_ext(buf: Seq<u8>, more: Seq<u8>, pos: int)
    requires
        0 <= pos <= buf.len(),
    ensures
        split_spec(buf + more, pos) == (
            split_spec(buf, pos).0 + split_spec(buf + more, split_spec(buf, pos).1).0,
            split_spec(buf + more, split_spec(buf, pos).1).1,
        ),
    decreases buf.len() - pos,
{
    let b = buf + more;
    lemma_first_start_code(buf, pos);
    match first_start_code(buf, pos) {
        None => {
            assert(split_spec(buf, pos).0 =~= Seq::<(Seq<u8>, bool)>::empty());
            assert(split_spec(buf, pos).0 + split_spec(b, pos).0 =~= split_spec(b, pos).0);
        },
        Some((start, l)) => {
            lemma_first_start_code(buf, start + l);
            match first_start_code(buf, start + l) {
                None => {
                    assert(split_spec(buf, pos).0 =~= Seq::<(Seq<u8>, bool)>::empty());
                    assert(split_spec(buf, pos).0 + split_spec(b, pos).0 =~= split_spec(b, pos).0);
                },
                Some((next, _)) => {
                    lemma_fsc_ext(buf, more, pos);
                    lemma_fsc_ext(buf, more, start + l);
                    lemma_split_ext(buf, more, next);
                    assert(b.subrange(start, next) =~= buf.subrange(start, next));
                    assert(b.subrange(start + l, next) =~= buf.subrange(start + l, next));
                    let u = (
                        buf.subrange(start, next),
                        is_keyframe_type(hevc_nal_type_spec(buf.subrange(start + l, next))),
                    );
                    let rb = split_spec(buf, next);
                    let c = rb.1;
                    assert(split_spec(buf, pos).0 == seq![u] + rb.0);
                    assert(split_spec(b, pos).0 == seq![u] + split_spec(b, next).0);
                    assert(seq![u] + rb.0 + split_spec(b, c).0 =~= seq![u] + (rb.0 + split_spec(
                        b,
                        c,
                    ).0));
                },
            }
        },
    }
}

proof fn lemma_scl_shift(b: Seq<u8>, c: int, j: int)
    requires
        0 <= c <= b.len(),
        0 <= j,
    ensures
        start_code_len(b.skip(c), j) == start_code_len(b, c + j),
{
    let t = b.skip(c);
    if j + 3 <= t.len() {
        assert(t[j] == b[c + j] && t[j + 1] == b[c + j + 1] && t[j + 2] == b[c + j + 2]);
        if j + 4 <= t.len() {
            assert(t[j + 3] == b[c + j + 3]);
        }
    }
}

proof fn lemma_fsc_shift(b: Seq<u8>, c: int, p: int)
    requires
        0 <= c <= b.len(),
        0 <= p,
    ensures
        first_start_code(b.skip(c), p) == match first_start_code(b, c + p) {
            Some((i, l)) => Some((i - c, l)),
            None => None,
        },
    decreases b.len() - c - p,
{
    lemma_scl_shift(b, c, p);
    if p + 3 <= b.len() - c && start_code_len(b, c + p) == 0 {
        lemma_fsc_shift(b, c, p + 1);
    }
}

proof fn lemma_split_shift(b: Seq<u8>, c: int, p: int)
    requires
        0 <= c <= b.len(),
        0 <= p <= b.len() - c,
    ensures
        split_spec(b.skip(c), p) == (split_spec(b, c + p).0, split_spec(b, c + p).1 - c),
    decreases b.len() - c - p,
{
    let t = b.skip(c);
    lemma_fsc_shift(b, c, p);
    lemma_first_start_code(b, c + p);
    match first_start_code(b, c + p) {
        None => {},
        Some((start, l)) => {
            lemma_fsc_shift(b, c, start + l - c);
            lemma_first_start_code(b, start + l);
            match first_start_code(b, start + l) {
                None => {},
                Some((next, _)) => {
                    lemma_split_shift(b, c, next - c);
                    assert(t.subrange(start - c, next - c) =~= b.subrange(start, next));
                    assert(t.subrange(start + l - c, next - c) =~= b.subrange(start + l, next));
                },
            }
        },
    }
}

/// Splitting from where unit `k` begins gives the units from `k` on.
proof fn lemma_split_suffix(b: Seq<u8>, pos: int, k: int)
    requires
        0 <= pos <= b.len(),
        0 <= k <= split_spec(b, pos).0.len(),
        split_spec(b, pos).0.len() > 0,
    ensures
        first_start_code(b, pos) matches Some((s, _)) && split_spec(
            b,
            s + units_bytes(split_spec(b, pos).0.take(k)).len(),
        ) == (split_spec(b, pos).0.skip(k), split_spec(b, pos).1),
    decreases b.len() - pos,
{
    lemma_first_start_code(b, pos);
    let (s, l) = first_start_code(b, pos).unwrap();
    lemma_first_start_code(b, s + l);
    let next = first_start_code(b, s + l).unwrap().0;
    let units = split_spec(b, pos).0;
    let rest = split_spec(b, next);
    let f = |u: (Seq<u8>, bool)| u.0;
    assert(units == seq![units[0]] + rest.0);
    assert(units[0].0 == b.subrange(s, next));
    if k == 0 {
        assert(units.take(0).map_values(f) =~= Seq::<Seq<u8>>::empty());
        assert(units.skip(0) =~= units);
        lemma_first_start_code_later(b, pos, s);
    } else {
        assert(units.take(k).map_values(f) =~= seq![units[0].0] + rest.0.take(k - 1).map_values(f));
        vstd::seq_lib::lemma_flatten_concat(seq![units[0].0], rest.0.take(k - 1).map_values(f));
        seq![units[0].0].lemma_flatten_singleton();
        assert(units.skip(k) =~= rest.0.skip(k - 1));
        lemma_first_start_code(b, next);
        assert(first_start_code(b, next) == Some((next, start_code_len(b, next))));
        if rest.0.len() > 0 {
            lemma_split_suffix(b, next, k - 1);
        } else {
            assert(rest.0.take(0).map_values(f) =~= Seq::<Seq<u8>>::empty());
        }
    }
}

} // verus!

verus! {

proof fn lemma_au_end_ext(
    u1: Seq<(Seq<u8>, bool)>,
    uw: Seq<(Seq<u8>, bool)>,
    lb: Seq<u8>,
    lw: Seq<u8>,
    j: int,
    seen: bool,
)
    requires
        0 <= j <= u1.len() <= uw.len(),
        u1 == uw.take(u1.len() as int),
        starts_access_unit(lb) ==> opens_au(uw, lw, u1.len() as int),
    ensures
        au_end(u1, lb, j, seen) matches Some(e) ==> au_end(uw, lw, j, seen) == Some(e),
    decreases u1.len() - j,
{
    if seen && opens_au(u1, lb, j) {
        if j < u1.len() {
            assert(u1[j] == uw[j]);
        }
    } else if j < u1.len() {
        assert(u1[j] == uw[j]);
        if seen && opens_au(uw, lw, j) {
            assert(false);
        }
        lemma_au_end_ext(u1, uw, lb, lw, j + 1, seen || is_vcl_nal(nal_payload(u1[j].0)));
    }
}

/// Grouping units that an extended buffer also has gives the same access
/// units, and the extended grouping goes on from where the shorter stopped.
proof fn lemma_group_ext(
    u1: Seq<(Seq<u8>, bool)>,
    uw: Seq<(Seq<u8>, bool)>,
    lb: Seq<u8>,
    lw: Seq<u8>,
    s: int,
)
    requires
        0 <= s <= u1.len() <= uw.len(),
        u1 == uw.take(u1.len() as int),
        starts_access_unit(lb) ==> opens_au(uw, lw, u1.len() as int),
    ensures
        group_spec(uw, lw, s).0 == group_spec(u1, lb, s).0 + group_spec(uw, lw, group_spec(u1, lb, s).1).0,
        group_spec(uw, lw, s).1 == group_spec(uw, lw, group_spec(u1, lb, s).1).1,
    decreases u1.len() - s,
{
    if s == u1.len() || au_end(u1, lb, s + 1, is_vcl_nal(nal_payload(u1[s].0))) is None {
        assert(group_spec(u1, lb, s).0 + group_spec(uw, lw, s).0 =~= group_spec(uw, lw, s).0);
    } else {
        assert(u1[s] == uw[s]);
        let e = au_end(u1, lb, s + 1, is_vcl_nal(nal_payload(u1[s].0))).unwrap();
        lemma_au_end_bounds(u1, lb, s + 1, is_vcl_nal(nal_payload(u1[s].0)));
        lemma_au_end_ext(u1, uw, lb, lw, s + 1, is_vcl_nal(nal_payload(u1[s].0)));
        lemma_group_ext(u1, uw, lb, lw, e);
        assert(u1.subrange(s, e) =~= uw.subrange(s, e));
        assert(access_unit(u1, s, e) == access_unit(uw, s, e)) by {
            assert forall|m: int| s <= m < e implies u1[m] == uw[m] by {}
        }
        let r1 = group_spec(u1, lb, e);
        assert(seq![access_unit(u1, s, e)] + r1.0 + group_spec(uw, lw, r1.1).0 =~= seq![
            access_unit(uw, s, e),
        ] + (r1.0 + group_spec(uw, lw, r1.1).0));
    }
}

proof fn lemma_au_end_shift(u: Seq<(Seq<u8>, bool)>, look: Seq<u8>, k: int, j: int, seen: bool)
    requires
        0 <= k <= u.len(),
        0 <= j,
    ensures
        au_end(u.skip(k), look, j, seen) == match au_end(u, look, k + j, seen) {
            Some(e) => Some(e - k),
            None => None,
        },
    decreases u.len() - k - j,
{
    let t = u.skip(k);
    if j < t.len() {
        assert(t[j] == u[k + j]);
    }
    if !(seen && opens_au(t, look, j)) && j < t.len() {
        lemma_au_end_shift(u, look, k, j + 1, seen || is_vcl_nal(nal_payload(t[j].0)));
    }
}

/// Grouping the units from `k` on is grouping all of them from `k` on.
proof fn lemma_group_shift(u: Seq<(Seq<u8>, bool)>, look: Seq<u8>, k: int, s: int)
    requires
        0 <= k <= u.len(),
        0 <= s,
    ensures
        group_spec(u.skip(k), look, s).0 == group_spec(u, look, k + s).0,
    decreases u.len() - k - s,
{
    let t = u.skip(k);
    if s < t.len() {
        assert(t[s] == u[k + s]);
        lemma_au_end_shift(u, look, k, s + 1, is_vcl_nal(nal_payload(t[s].0)));
        lemma_au_end_bounds(u, look, k + s + 1, is_vcl_nal(nal_payload(u[k + s].0)));
        if let Some(e) = au_end(u, look, k + s + 1, is_vcl_nal(nal_payload(u[k + s].0))) {
            lemma_group_shift(u, look, k, e - k);
            assert(t.subrange(s, e - k) =~= u.subrange(k + s, e));
            assert(access_unit(t, s, e - k) == access_unit(u, k + s, e)) by {
                assert forall|m: int| s <= m < e - k implies t[m] == u[k + m] by {}
                if exists|m: int| k + s <= m < e && #[trigger] u[m].1 {
                    let m = choose|m: int| k + s <= m < e && #[trigger] u[m].1;
                    assert(t[m - k] == u[m]);
                }
            }
        }
    }
}

} // verus!

verus! {

proof fn lemma_starts_prefix(p: Seq<u8>, q: Seq<u8>)
    requires
        p.len() <= q.len(),
        p == q.take(p.len() as int),
        starts_access_unit(p),
    ensures
        starts_access_unit(q),
{
    assert(p[0] == q[0]);
    if p.len() >= 3 {
        assert(p[2] == q[2]);
    }
}

/// When more bytes arrive, a partial unit that opened an access unit still
/// opens one, whether it has become complete or not.
proof fn lemma_opens_ext(buf: Seq<u8>, more: Seq<u8>)
    requires
        split_spec(buf, 0).0.len() > 0,
    ensures
        ({
            let cb = split_spec(buf, 0).1;
            let lb = buf.skip(cb + start_code_len(buf, cb));
            let b = buf + more;
            let cw = split_spec(b, 0).1;
            let lw = b.skip(cw + start_code_len(b, cw));
            starts_access_unit(lb) ==> opens_au(split_spec(b, 0).0, lw, split_spec(buf, 0).0.len() as int)
        }),
{
    let b = buf + more;
    let u1 = split_spec(buf, 0).0;
    let cb = split_spec(buf, 0).1;
    lemma_split_units(buf, 0);
    lemma_split_ext(buf, more, 0);
    let l = start_code_len(buf, cb);
    lemma_scl_ext(buf, more, cb);
    let a = cb + l;
    let lb = buf.skip(a);
    assert(first_start_code(buf, cb) == Some((cb, l)));
    assert(first_start_code(buf, a) is None);
    lemma_first_start_code(buf, a);
    let r = split_spec(b, cb);
    lemma_split_units(b, cb);
    if starts_access_unit(lb) {
        if r.0.len() == 0 {
            let lw = b.skip(a);
            assert(lb =~= lw.take(lb.len() as int));
            lemma_starts_prefix(lb, lw);
        } else {
            assert(first_start_code(b, cb) == Some((cb, l)));
            lemma_first_start_code(b, a);
            let next = first_start_code(b, a).unwrap().0;
            let unit = b.subrange(cb, next);
            assert(split_spec(b, 0).0[u1.len() as int] == r.0[0]);
            assert(r.0[0].0 == unit);
            assert(start_code_len(unit, 0) == l);
            let p = nal_payload(unit);
            assert(p =~= b.subrange(a, next));
            let m = next - a;
            if next + 4 <= buf.len() {
                lemma_scl_ext(buf, more, next);
                assert(false);
            }
            if next + 3 <= buf.len() && b[next + 2] == 1 {
                assert(buf[next] == b[next] && buf[next + 1] == b[next + 1] && buf[next + 2] == b[next + 2]);
                assert(start_code_len(buf, next) == 3);
                assert(false);
            }
            assert(b[next] == 0 && b[next + 1] == 0 && (b[next + 2] == 0 || b[next + 2] == 1));
            assert(lb[0] == b[a]);
            if lb.len() >= 3 {
                assert(lb[2] == b[a + 2]);
            }
            assert(p[0] == b[a]) by {
                if m == 0 {
                    assert(b[a] == 0);
                }
            }
            if is_vcl_nal(lb) {
                assert(m >= 3) by {
                    if m < 3 {
                        assert(b[a + 2] == b[next + (2 - m)]);
                    }
                }
                assert(p[2] == lb[2]);
            }
        }
    }
}

/// Splitting a stream piecewise gives the same access units as splitting it
/// whole: taking the access units of `buf`, dropping the bytes consumed and
/// appending `more`, then taking the access units of that, yields exactly the
/// access units of `buf` followed by `more`.
pub proof fn lemma_access_units_piecewise(buf: Seq<u8>, more: Seq<u8>)
    ensures
        access_units_spec(buf).0 + access_units_spec(buf.skip(access_units_spec(buf).1) + more).0
            == access_units_spec(buf + more).0,
{
    let b = buf + more;
    let (a1, c1) = access_units_spec(buf);
    if a1.len() == 0 {
        assert(buf.skip(0) + more =~= b);
        assert(a1 + access_units_spec(b).0 =~= access_units_spec(b).0);
    } else {
        lemma_split_units(buf, 0);
        lemma_split_units(b, 0);
        let u1 = split_spec(buf, 0).0;
        let cb = split_spec(buf, 0).1;
        let lb = buf.skip(cb + start_code_len(buf, cb));
        let uw = split_spec(b, 0).0;
        let cw = split_spec(b, 0).1;
        let lw = b.skip(cw + start_code_len(b, cw));
        lemma_split_ext(buf, more, 0);
        assert(uw.take(u1.len() as int) =~= u1);
        lemma_opens_ext(buf, more);
        lemma_group_bounds(u1, lb, 0);
        let k = group_spec(u1, lb, 0).1;
        lemma_group_ext(u1, uw, lb, lw, 0);
        // Where the rest begins: the start of unit `k`.
        lemma_first_start_code(buf, 0);
        lemma_fsc_ext(buf, more, 0);
        let s0 = first_start_pos(buf);
        assert(uw.take(k) =~= u1.take(k));
        lemma_split_suffix(b, 0, k);
        assert(c1 == s0 + units_bytes(uw.take(k)).len());
        assert(split_spec(b, c1) == (uw.skip(k), cw));
        lemma_access_units(buf);
        let rest = buf.skip(c1) + more;
        assert(rest =~= b.skip(c1));
        lemma_split_shift(b, c1, 0);
        lemma_split_units(b, c1);
        assert(split_spec(rest, 0) == (uw.skip(k), cw - c1));
        lemma_scl_shift(b, c1, cw - c1);
        let lr = rest.skip(cw - c1 + start_code_len(rest, cw - c1));
        assert(lr =~= lw);
        lemma_group_shift(uw, lw, k, 0);
        assert(access_units_spec(rest).0 == group_spec(uw, lw, k).0);
    }
}

} // verus!
