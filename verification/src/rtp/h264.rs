//! The RTP payload format for H.264 (RFC 6184): single NAL unit packets, STAP-A aggregation
//! packets and FU-A fragmentation units, in both directions.

use crate::buf::{
    bytes_as_slice, bytes_contents, bytes_from_vec, bytes_mut_as_slice, bytes_mut_contents,
    bytes_mut_new,
    bytes_slice, bytes_views,
};
use crate::rtp::error::{Error, ErrorView, H264PacketizationMode};
use crate::rtp::packet::{be16, u16_at, Packet, PacketView};
use crate::rtp::packetization::{PacketizationParameters, Packetizer, PacketizerView};
use bytes::{Bytes, BytesMut};
use vstd::prelude::*;

verus! {

/// NAL unit type of a single-time aggregation packet without decoding order number.
pub const NAL_TYPE_STAP_A: u8 = 24;

/// NAL unit type of a fragmentation unit without decoding order number.
pub const NAL_TYPE_FU_A: u8 = 28;

/// The largest NAL unit that an aggregation packet can hold.
pub const AGGREGATED_NAL_MAX: usize = 65535;

/// The low 16 bits of a length.
pub open spec fn len16(len: nat) -> u16 {
    (len % 0x1_0000) as u16
}

/// The aggregation units for `nals`: each NAL unit behind its 16-bit length.
pub open spec fn aggregation_units(nals: Seq<Seq<u8>>) -> Seq<u8>
    decreases nals.len(),
{
    if nals.len() == 0 {
        Seq::<u8>::empty()
    } else {
        be16(len16(nals[0].len())) + nals[0] + aggregation_units(nals.skip(1))
    }
}

/// The STAP-A payload that carries `nals`: the aggregation header, then the units.
pub open spec fn stap_a(nals: Seq<Seq<u8>>) -> Seq<u8> {
    seq![NAL_TYPE_STAP_A] + aggregation_units(nals)
}

/// The length of the first NAL unit that is too long for an aggregation unit, if any is.
pub open spec fn too_long(nals: Seq<Seq<u8>>) -> Option<usize>
    decreases nals.len(),
{
    if nals.len() == 0 {
        None
    } else if nals[0].len() > AGGREGATED_NAL_MAX {
        Some(nals[0].len() as usize)
    } else {
        too_long(nals.skip(1))
    }
}

/// The room that `group` takes in an aggregation packet, the aggregation header aside: two
/// bytes and its length for each NAL unit.
pub open spec fn bucket_len(group: Seq<Seq<u8>>) -> nat
    decreases group.len(),
{
    if group.len() == 0 {
        0
    } else {
        bucket_len(group.drop_last()) + 2 + group.last().len()
    }
}

/// Greedy grouping: each NAL unit joins the group before it as long as the header, and two
/// bytes and the length for every unit of the group, stay within `mtu`; otherwise it opens a
/// group of its own.
pub open spec fn grouped(nals: Seq<Seq<u8>>, header_len: nat, mtu: nat) -> Seq<Seq<Seq<u8>>>
    decreases nals.len(),
{
    if nals.len() == 0 {
        Seq::<Seq<Seq<u8>>>::empty()
    } else {
        let before = grouped(nals.drop_last(), header_len, mtu);
        let nal = nals.last();
        if before.len() > 0 && header_len + bucket_len(before.last()) + 2 + nal.len() <= mtu {
            before.drop_last().push(before.last().push(nal))
        } else {
            before.push(seq![nal])
        }
    }
}

/// The FU indicator for fragments of a NAL unit that begins with `first`: its reference
/// bits, and the FU-A type.
pub open spec fn fu_indicator(first: u8) -> u8 {
    (first & 0x60) | NAL_TYPE_FU_A
}

/// The FU header: start bit, end bit, and the type of the fragmented NAL unit.
pub open spec fn fu_header(first: u8, start: bool, end: bool) -> u8 {
    (first & 0x1f) | (if start {
        0x80u8
    } else {
        0u8
    }) | (if end {
        0x40u8
    } else {
        0u8
    })
}

/// The FU-A payloads that carry `nal` from position `from` on, `chunk` bytes of it each but
/// for the last, which carries what is left. The fragment at position 1 has the start bit,
/// the one that reaches the end of `nal` the end bit.
pub open spec fn fragments_from(nal: Seq<u8>, chunk: nat, from: int) -> Seq<Seq<u8>>
    decreases nal.len() - from,
    when chunk > 0 && from >= 1
{
    if from >= nal.len() {
        Seq::<Seq<u8>>::empty()
    } else {
        let to = if from + chunk < nal.len() {
            from + chunk
        } else {
            nal.len() as int
        };
        seq![
            seq![fu_indicator(nal[0]), fu_header(nal[0], from == 1, to == nal.len())]
                + nal.subrange(from, to),
        ] + fragments_from(nal, chunk, to)
    }
}

/// The FU-A payloads that carry `nal`, whose first byte goes into the FU headers.
pub open spec fn fragments(nal: Seq<u8>, chunk: nat) -> Seq<Seq<u8>> {
    fragments_from(nal, chunk, 1)
}

/// The payloads for one group: the NAL unit itself where the group is one unit that fits,
/// its fragments where it does not fit, and one aggregation packet for a larger group.
pub open spec fn group_payloads(group: Seq<Seq<u8>>, header_len: nat, mtu: nat) -> Seq<Seq<u8>> {
    if group.len() == 1 {
        if header_len + group[0].len() <= mtu {
            seq![group[0]]
        } else {
            fragments(group[0], (mtu - header_len - 2) as nat)
        }
    } else {
        seq![stap_a(group)]
    }
}

/// The payloads for all groups in order, or the first NAL unit that is too long for the
/// aggregation packet that its group calls for.
pub open spec fn groups_payloads(groups: Seq<Seq<Seq<u8>>>, header_len: nat, mtu: nat) -> Result<
    Seq<Seq<u8>>,
    ErrorView,
>
    decreases groups.len(),
{
    if groups.len() == 0 {
        Ok(Seq::<Seq<u8>>::empty())
    } else {
        match (if groups[0].len() == 1 {
            None
        } else {
            too_long(groups[0])
        }) {
            Some(len) => Err(ErrorView::H264NalUnitDataLengthInvalid { len }),
            None => match groups_payloads(groups.skip(1), header_len, mtu) {
                Ok(rest) => Ok(group_payloads(groups[0], header_len, mtu) + rest),
                Err(e) => Err(e),
            },
        }
    }
}

/// `done`, then what `rest` gives, unless `rest` is an error.
pub open spec fn after<T>(done: Seq<T>, rest: Result<Seq<T>, ErrorView>) -> Result<
    Seq<T>,
    ErrorView,
> {
    match rest {
        Ok(more) => Ok(done + more),
        Err(e) => Err(e),
    }
}

/// Packetizing `payloads` one after the other, all with one timestamp: the state afterwards,
/// and the packets, or the first packet that was too large. With `mark_last`, the last
/// packet carries the marker bit and no other does.
pub open spec fn emitted(
    state: PacketizerView,
    payloads: Seq<Seq<u8>>,
    timestamp: u32,
    mark_last: bool,
) -> (PacketizerView, Result<Seq<PacketView>, ErrorView>)
    decreases payloads.len(),
{
    if payloads.len() == 0 {
        (state, Ok(Seq::<PacketView>::empty()))
    } else {
        match state.packetized(payloads[0], timestamp, mark_last && payloads.len() == 1) {
            Err(e) => (state.advanced(), Err(e)),
            Ok(packet) => {
                let (end, rest) = emitted(state.advanced(), payloads.skip(1), timestamp, mark_last);
                (end, after(seq![packet], rest))
            },
        }
    }
}

/// Single NAL unit mode: every NAL unit is the payload of one packet.
pub open spec fn mode0_packetized(state: PacketizerView, nals: Seq<Seq<u8>>, timestamp: u32) -> (
    PacketizerView,
    Result<Seq<PacketView>, ErrorView>,
) {
    emitted(state, nals, timestamp, true)
}

/// Non-interleaved mode. With a size limit the NAL units are grouped, and each group becomes
/// one single NAL unit packet, one aggregation packet, or a run of fragments. Without a
/// limit they all go into one aggregation packet. A NAL unit too long for its aggregation
/// packet fails the whole access unit before any packet is made.
pub open spec fn mode1_packetized(state: PacketizerView, nals: Seq<Seq<u8>>, timestamp: u32) -> (
    PacketizerView,
    Result<Seq<PacketView>, ErrorView>,
) {
    match state.mtu {
        Some(mtu) => match groups_payloads(
            grouped(nals, state.header_len(), mtu as nat),
            state.header_len(),
            mtu as nat,
        ) {
            Ok(payloads) => emitted(state, payloads, timestamp, true),
            Err(e) => (state, Err(e)),
        },
        None => match too_long(nals) {
            Some(len) => (state, Err(ErrorView::H264NalUnitDataLengthInvalid { len })),
            None => emitted(state, seq![stap_a(nals)], timestamp, true),
        },
    }
}

/// The views of a run of packets.
pub open spec fn packet_views(packets: Seq<Packet>) -> Seq<PacketView> {
    Seq::new(packets.len(), |i: int| packets[i]@)
}

/// The contents of every group of a run of groups.
pub open spec fn group_views(groups: Seq<Vec<Bytes>>) -> Seq<Seq<Seq<u8>>> {
    Seq::new(groups.len(), |i: int| bytes_views(groups[i]@))
}

/// Whether a result of packets is the result `expected` of packet views.
pub open spec fn packets_are(r: Result<Vec<Packet>, Error>, expected: Result<Seq<PacketView>, ErrorView>) ->
    bool {
    match expected {
        Ok(packets) => r matches Ok(p) && packet_views(p@) == packets,
        Err(e) => r matches Err(x) && x@ == e,
    }
}

/// Whether a result of byte strings is the result `expected` of their contents.
pub open spec fn units_are(r: Result<Vec<Bytes>, Error>, expected: Result<Seq<Seq<u8>>, ErrorView>) ->
    bool {
    match expected {
        Ok(units) => r matches Ok(u) && bytes_views(u@) == units,
        Err(e) => r matches Err(x) && x@ == e,
    }
}

proof fn lemma_aggregation_units_push(nals: Seq<Seq<u8>>, nal: Seq<u8>)
    ensures
        aggregation_units(nals.push(nal)) == aggregation_units(nals) + be16(len16(nal.len())) + nal,
    decreases nals.len(),
{
    let all = nals.push(nal);
    assert(all.len() > 0);
    assert(aggregation_units(all) == be16(len16(all[0].len())) + all[0] + aggregation_units(
        all.skip(1),
    ));
    if nals.len() == 0 {
        assert(all.skip(1) =~= Seq::<Seq<u8>>::empty());
        assert(aggregation_units(all.skip(1)) =~= Seq::<u8>::empty());
        assert(aggregation_units(nals) =~= Seq::<u8>::empty());
        assert(all[0] == nal);
        assert(aggregation_units(all) =~= aggregation_units(nals) + be16(len16(nal.len())) + nal);
    } else {
        lemma_aggregation_units_push(nals.skip(1), nal);
        assert(all.skip(1) =~= nals.skip(1).push(nal));
        assert(all[0] == nals[0]);
        assert(aggregation_units(all) =~= aggregation_units(nals) + be16(len16(nal.len())) + nal);
    }
}

proof fn lemma_too_long_push(nals: Seq<Seq<u8>>, nal: Seq<u8>)
    requires
        too_long(nals) is None,
    ensures
        too_long(nals.push(nal)) == if nal.len() > AGGREGATED_NAL_MAX {
            Some(nal.len() as usize)
        } else {
            None::<usize>
        },
    decreases nals.len(),
{
    let all = nals.push(nal);
    assert(all.len() > 0);
    if nals.len() == 0 {
        assert(all.skip(1) =~= Seq::<Seq<u8>>::empty());
        assert(too_long(all.skip(1)) is None);
        assert(all[0] == nal);
    } else {
        assert(all[0] == nals[0]);
        assert(nals[0].len() <= AGGREGATED_NAL_MAX);
        lemma_too_long_push(nals.skip(1), nal);
        assert(all.skip(1) =~= nals.skip(1).push(nal));
    }
}

/// The STAP-A payload for `nal_units`, or the first NAL unit that is too long for it.
fn payload_stap_a(nal_units: &Vec<Bytes>) -> (r: Result<Bytes, Error>)
    ensures
        match too_long(bytes_views(nal_units@)) {
            Some(len) => r matches Err(x) && x@ == (ErrorView::H264NalUnitDataLengthInvalid {
                len,
            }),
            None => r matches Ok(payload) && bytes_contents(payload) == stap_a(
                bytes_views(nal_units@),
            ),
        },
{
    let ghost nals = bytes_views(nal_units@);
    let mut payload: Vec<u8> = Vec::new();
    payload.push(NAL_TYPE_STAP_A);
    let mut i: usize = 0;
    assert(nals.take(0) =~= Seq::<Seq<u8>>::empty());
    assert(payload@ =~= stap_a(nals.take(0)));
    while i < nal_units.len()
        invariant
            0 <= i <= nal_units@.len(),
            nals == bytes_views(nal_units@),
            payload@ == stap_a(nals.take(i as int)),
            too_long(nals.take(i as int)) is None,
        decreases nal_units@.len() - i,
    {
        let nal_unit = &nal_units[i];
        let len = nal_unit.len();
        proof {
            assert(nals.take(i + 1) =~= nals.take(i as int).push(nals[i as int]));
            lemma_too_long_push(nals.take(i as int), nals[i as int]);
            lemma_aggregation_units_push(nals.take(i as int), nals[i as int]);
        }
        if len > AGGREGATED_NAL_MAX {
            proof {
                lemma_too_long_prefix(nals, i + 1);
            }
            return Err(Error::H264NalUnitDataLengthInvalid { len });
        }
        let ghost before = payload@;
        payload.push(((len as u16) >> 8) as u8);
        payload.push(((len as u16) & 0xff) as u8);
        payload.extend_from_slice(bytes_as_slice(nal_unit));
        assert(len as u16 == len16(len as nat));
        assert(payload@ =~= before + be16(len as u16) + nals[i as int]);
        assert(payload@ =~= stap_a(nals.take(i + 1)));
        i += 1;
    }
    assert(nals.take(nals.len() as int) =~= nals);
    Ok(bytes_from_vec(payload))
}

proof fn lemma_too_long_prefix(nals: Seq<Seq<u8>>, k: int)
    requires
        0 <= k <= nals.len(),
        too_long(nals.take(k)) is Some,
    ensures
        too_long(nals) == too_long(nals.take(k)),
    decreases nals.len(),
{
    if k > 0 {
        assert(nals.take(k)[0] == nals[0]);
        if nals[0].len() <= AGGREGATED_NAL_MAX {
            assert(nals.take(k).skip(1) =~= nals.skip(1).take(k - 1));
            lemma_too_long_prefix(nals.skip(1), k - 1);
        }
    }
}

/// The FU-A payloads for `nal_unit`, which carry `chunk` bytes of it each.
fn payload_fragmented_unit_a(nal_unit: &Bytes, chunk: usize) -> (r: Vec<Bytes>)
    requires
        chunk > 0,
        bytes_contents(*nal_unit).len() >= 1,
    ensures
        bytes_views(r@) == fragments(bytes_contents(*nal_unit), chunk as nat),
{
    let s = bytes_as_slice(nal_unit);
    let ghost nal = bytes_contents(*nal_unit);
    let len = s.len();
    let nal_unit_header = s[0];
    let nal_unit_type = nal_unit_header & 0x1f;
    let nal_ref_idc = nal_unit_header & 0x60;
    let mut out: Vec<Bytes> = Vec::new();
    let mut from: usize = 1;
    assert(bytes_views(out@) + fragments_from(nal, chunk as nat, 1) =~= fragments(
        nal,
        chunk as nat,
    ));
    while from < len
        invariant
            1 <= from <= len,
            len == nal.len(),
            s@ == nal,
            chunk > 0,
            nal_unit_header == nal[0],
            nal_unit_type == nal_unit_header & 0x1f,
            nal_ref_idc == nal_unit_header & 0x60,
            bytes_views(out@) + fragments_from(nal, chunk as nat, from as int) == fragments(
                nal,
                chunk as nat,
            ),
        decreases len - from,
    {
        let to: usize = if chunk < len - from {
            from + chunk
        } else {
            len
        };
        let mut fragment: Vec<u8> = Vec::new();
        fragment.push(nal_ref_idc | NAL_TYPE_FU_A);
        let mut fragmented_nal_unit_header = nal_unit_type;
        if from == 1 {
            fragmented_nal_unit_header |= 0x80;
        }
        if to == len {
            fragmented_nal_unit_header |= 0x40;
        }
        fragment.push(fragmented_nal_unit_header);
        fragment.extend_from_slice(vstd::slice::slice_subrange(s, from, to));
        proof {
            let first = nal[0];
            let t: u8 = first & 0x1f;
            assert(t | 0u8 == t) by (bit_vector);
            assert((t | 0x80u8) | 0u8 == t | 0x80u8) by (bit_vector);
            assert((t | 0u8) | 0x40u8 == t | 0x40u8) by (bit_vector);
            assert(fragmented_nal_unit_header == fu_header(first, from == 1, to == len));
            assert(fragment@ =~= seq![
                fu_indicator(first),
                fu_header(first, from == 1, to == len),
            ] + nal.subrange(from as int, to as int));
        }
        let ghost before = bytes_views(out@);
        let ghost piece = fragment@;
        out.push(bytes_from_vec(fragment));
        proof {
            assert(bytes_views(out@) =~= before.push(piece));
            assert(fragments_from(nal, chunk as nat, from as int) =~= seq![piece] + fragments_from(
                nal,
                chunk as nat,
                to as int,
            ));
            assert(bytes_views(out@) + fragments_from(nal, chunk as nat, to as int) =~= before
                + fragments_from(nal, chunk as nat, from as int));
        }
        from = to;
    }
    assert(bytes_views(out@) + Seq::<Seq<u8>>::empty() =~= bytes_views(out@));
    out
}

proof fn lemma_bucket_len_push(group: Seq<Seq<u8>>, nal: Seq<u8>)
    ensures
        bucket_len(group.push(nal)) == bucket_len(group) + 2 + nal.len(),
{
    assert(group.push(nal).drop_last() =~= group);
}

/// Groups the NAL units so that as many as fit share one aggregation packet.
fn group_nal_units(data: &Vec<Bytes>, header_len: usize, mtu: usize) -> (groups: Vec<Vec<Bytes>>)
    ensures
        group_views(groups@) == grouped(bytes_views(data@), header_len as nat, mtu as nat),
{
    let ghost nals = bytes_views(data@);
    let mut groups: Vec<Vec<Bytes>> = Vec::new();
    // The room left in the last group, when that group is within the limit.
    let mut room: Option<usize> = None;
    let mut i: usize = 0;
    assert(nals.take(0) =~= Seq::<Seq<u8>>::empty());
    assert(group_views(groups@) =~= grouped(nals.take(0), header_len as nat, mtu as nat));
    while i < data.len()
        invariant
            0 <= i <= data@.len(),
            nals == bytes_views(data@),
            group_views(groups@) == grouped(nals.take(i as int), header_len as nat, mtu as nat),
            groups@.len() == 0 ==> room is None,
            groups@.len() > 0 ==> (match room {
                Some(r) => header_len + bucket_len(bytes_views(groups@.last()@)) + r == mtu,
                None => header_len + bucket_len(bytes_views(groups@.last()@)) > mtu,
            }),
        decreases data@.len() - i,
    {
        let nal_unit = data[i].clone();
        let len = nal_unit.len();
        let ghost nal = nals[i as int];
        let ghost before = group_views(groups@);
        proof {
            assert(nals.take(i + 1).drop_last() =~= nals.take(i as int));
            assert(nals.take(i + 1).last() == nal);
            if groups@.len() > 0 {
                assert(before.last() == bytes_views(groups@.last()@));
            }
        }
        let joins = match room {
            Some(r) => r >= 2 && len <= r - 2,
            None => false,
        };
        if joins {
            let mut group = groups.pop().unwrap();
            let ghost old_group = bytes_views(group@);
            group.push(nal_unit);
            proof {
                lemma_bucket_len_push(old_group, nal);
                assert(bytes_views(group@) =~= old_group.push(nal));
            }
            room = Some(room.unwrap() - 2 - len);
            groups.push(group);
            proof {
                assert(group_views(groups@) =~= before.drop_last().push(before.last().push(nal)));
            }
        } else {
            let mut group: Vec<Bytes> = Vec::new();
            group.push(nal_unit);
            proof {
                assert(bytes_views(group@) =~= seq![nal]);
                lemma_bucket_len_push(Seq::<Seq<u8>>::empty(), nal);
                assert(Seq::<Seq<u8>>::empty().push(nal) =~= seq![nal]);
                assert(bucket_len(seq![nal]) == 2 + nal.len());
            }
            room = if header_len <= mtu && mtu - header_len >= 2 && len <= mtu - header_len - 2 {
                Some(mtu - header_len - 2 - len)
            } else {
                None
            };
            groups.push(group);
            proof {
                assert(group_views(groups@) =~= before.push(seq![nal]));
            }
        }
        i += 1;
    }
    assert(nals.take(nals.len() as int) =~= nals);
    groups
}

/// The payloads for `groups`, in order.
fn payloads_for_groups(groups: &Vec<Vec<Bytes>>, header_len: usize, mtu: usize) -> (r: Result<
    Vec<Bytes>,
    Error,
>)
    requires
        mtu >= header_len + 3,
    ensures
        units_are(r, groups_payloads(group_views(groups@), header_len as nat, mtu as nat)),
{
    let ghost all = group_views(groups@);
    let mut out: Vec<Bytes> = Vec::new();
    let mut i: usize = 0;
    assert(all.skip(0) =~= all);
    assert(bytes_views(out@) + Seq::<Seq<u8>>::empty() =~= bytes_views(out@));
    while i < groups.len()
        invariant
            0 <= i <= groups@.len(),
            all == group_views(groups@),
            mtu >= header_len + 3,
            after(
                bytes_views(out@),
                groups_payloads(all.skip(i as int), header_len as nat, mtu as nat),
            ) == groups_payloads(all, header_len as nat, mtu as nat),
        decreases groups@.len() - i,
    {
        let group = &groups[i];
        let ghost g = all[i as int];
        let ghost before = bytes_views(out@);
        let ghost rest = groups_payloads(all.skip(i + 1), header_len as nat, mtu as nat);
        proof {
            assert(all.skip(i as int)[0] == g);
            assert(all.skip(i as int).skip(1) =~= all.skip(i + 1));
            assert(g == bytes_views(group@));
        }
        if group.len() == 1 {
            let single_nal_unit = &group[0];
            if single_nal_unit.len() <= mtu - header_len {
                out.push(single_nal_unit.clone());
                proof {
                    assert(bytes_views(out@) =~= before + seq![g[0]]);
                }
            } else {
                let mut pieces = payload_fragmented_unit_a(single_nal_unit, mtu - header_len - 2);
                let ghost added = bytes_views(pieces@);
                out.append(&mut pieces);
                proof {
                    assert(bytes_views(out@) =~= before + added);
                }
            }
        } else {
            match payload_stap_a(group) {
                Ok(payload) => {
                    out.push(payload);
                    proof {
                        assert(bytes_views(out@) =~= before + seq![stap_a(g)]);
                    }
                },
                Err(e) => {
                    return Err(e);
                },
            }
        }
        proof {
            let added = group_payloads(g, header_len as nat, mtu as nat);
            assert(bytes_views(out@) == before + added);
            match rest {
                Ok(more) => {
                    assert((before + added) + more =~= before + (added + more));
                },
                Err(_) => {},
            }
        }
        i += 1;
    }
    assert(bytes_views(out@) + Seq::<Seq<u8>>::empty() =~= bytes_views(out@));
    Ok(out)
}

/// `done`, then the packets of `rest`, with the state that `rest` ends in.
pub open spec fn emitted_after(
    done: Seq<PacketView>,
    rest: (PacketizerView, Result<Seq<PacketView>, ErrorView>),
) -> (PacketizerView, Result<Seq<PacketView>, ErrorView>) {
    (rest.0, after(done, rest.1))
}

/// Packetizes `payloads` one after the other; the last packet carries the marker bit.
fn emit_all(inner: &mut Packetizer, payloads: &Vec<Bytes>, timestamp: u32) -> (r: Result<
    Vec<Packet>,
    Error,
>)
    ensures
        final(inner)@ == emitted(old(inner)@, bytes_views(payloads@), timestamp, true).0,
        packets_are(r, emitted(old(inner)@, bytes_views(payloads@), timestamp, true).1),
{
    let ghost all = bytes_views(payloads@);
    let ghost start = inner@;
    let mut packets: Vec<Packet> = Vec::new();
    let mut i: usize = 0;
    proof {
        assert(all.skip(0) =~= all);
        let whole = emitted(start, all, timestamp, true);
        match whole.1 {
            Ok(p) => {
                assert(packet_views(packets@) + p =~= p);
            },
            Err(_) => {},
        }
    }
    while i < payloads.len()
        invariant
            0 <= i <= payloads@.len(),
            all == bytes_views(payloads@),
            start == old(inner)@,
            emitted_after(
                packet_views(packets@),
                emitted(inner@, all.skip(i as int), timestamp, true),
            ) == emitted(start, all, timestamp, true),
        decreases payloads@.len() - i,
    {
        let ghost state = inner@;
        let ghost done = packet_views(packets@);
        let ghost payload = all[i as int];
        proof {
            assert(all.skip(i as int)[0] == payload);
            assert(all.skip(i as int).skip(1) =~= all.skip(i + 1));
            assert(all.skip(i as int).len() == payloads@.len() - i);
        }
        let marker = i == payloads.len() - 1;
        match inner.packetize(payloads[i].clone(), timestamp, marker) {
            Ok(packet) => {
                packets.push(packet);
                proof {
                    let rest = emitted(state.advanced(), all.skip(i + 1), timestamp, true);
                    assert(packet_views(packets@) =~= done.push(packet@));
                    match rest.1 {
                        Ok(more) => {
                            assert(done.push(packet@) + more =~= done + (seq![packet@] + more));
                        },
                        Err(_) => {},
                    }
                }
            },
            Err(e) => {
                proof {
                    assert(emitted(state, all.skip(i as int), timestamp, true) == (
                        state.advanced(),
                        Err::<Seq<PacketView>, ErrorView>(e@),
                    ));
                }
                return Err(e);
            },
        }
        i += 1;
    }
    proof {
        assert(packet_views(packets@) + Seq::<PacketView>::empty() =~= packet_views(packets@));
    }
    Ok(packets)
}

/// Single NAL unit mode H.264 packetizer.
#[derive(Debug)]
pub struct H264PacketizerMode0 {
    inner: Packetizer,
}

impl View for H264PacketizerMode0 {
    type V = PacketizerView;

    closed spec fn view(&self) -> PacketizerView {
        self.inner@
    }
}

impl H264PacketizerMode0 {
    /// A packetizer for single NAL unit mode.
    pub fn new(params: PacketizationParameters) -> (r: H264PacketizerMode0)
        requires
            12 + 4 * params.csrc@.len() <= usize::MAX,
        ensures
            r@.payload_type == params.payload_type,
            r@.ssrc == params.ssrc,
            r@.csrc == params.csrc@,
            r@.mtu == params.mtu,
    {
        H264PacketizerMode0 { inner: Packetizer::from_packetization_parameters(params) }
    }

    /// A packetizer for single NAL unit mode that wraps `inner`.
    pub fn from_packetizer(inner: Packetizer) -> (r: H264PacketizerMode0)
        ensures
            r@ == inner@,
    {
        H264PacketizerMode0 { inner }
    }

    /// Packetizes the NAL units of one access unit, one packet each. The last packet carries
    /// the marker bit. A NAL unit that does not fit the size limit fails the access unit; the
    /// sequence numbers up to and including its own are used up.
    pub fn packetize(&mut self, data: Vec<Bytes>, timestamp: u32) -> (r: Result<Vec<Packet>, Error>)
        ensures
            final(self)@ == mode0_packetized(old(self)@, bytes_views(data@), timestamp).0,
            packets_are(r, mode0_packetized(old(self)@, bytes_views(data@), timestamp).1),
    {
        emit_all(&mut self.inner, &data, timestamp)
    }
}

/// Non-interleaved mode H.264 packetizer.
#[derive(Debug)]
pub struct H264PacketizerMode1 {
    inner: Packetizer,
    mtu: Option<usize>,
}

impl View for H264PacketizerMode1 {
    type V = PacketizerView;

    closed spec fn view(&self) -> PacketizerView {
        self.inner@
    }
}

/// Whether a size limit, if there is one, leaves room for a fragment of at least one byte
/// behind a header of `header_len` bytes.
pub open spec fn mtu_fits_fragments(mtu: Option<usize>, header_len: nat) -> bool {
    mtu matches Some(m) ==> m >= header_len + 3
}

impl H264PacketizerMode1 {
    /// Whether the copy of the size limit agrees with the packetizer's own.
    pub closed spec fn well_formed(&self) -> bool {
        self.mtu == self.inner@.mtu
    }

    /// A packetizer for non-interleaved mode.
    pub fn new(params: PacketizationParameters) -> (r: H264PacketizerMode1)
        requires
            12 + 4 * params.csrc@.len() <= usize::MAX,
        ensures
            r.well_formed(),
            r@.payload_type == params.payload_type,
            r@.ssrc == params.ssrc,
            r@.csrc == params.csrc@,
            r@.mtu == params.mtu,
    {
        let mtu = params.mtu;
        H264PacketizerMode1 { inner: Packetizer::from_packetization_parameters(params), mtu }
    }

    /// A packetizer for non-interleaved mode that wraps `inner`.
    pub fn from_packetizer(inner: Packetizer) -> (r: H264PacketizerMode1)
        ensures
            r.well_formed(),
            r@ == inner@,
    {
        let mtu = inner.mtu();
        H264PacketizerMode1 { inner, mtu }
    }

    /// Packetizes the NAL units of one access unit. The last packet carries the marker bit.
    /// A NAL unit too long for an aggregation packet fails the access unit and uses up no
    /// sequence number; a packet larger than the size limit fails it too, and the sequence
    /// numbers up to and including its own are used up.
    pub fn packetize(&mut self, data: Vec<Bytes>, timestamp: u32) -> (r: Result<Vec<Packet>, Error>)
        requires
            old(self).well_formed(),
            mtu_fits_fragments(old(self)@.mtu, old(self)@.header_len()),
        ensures
            final(self).well_formed(),
            final(self)@ == mode1_packetized(old(self)@, bytes_views(data@), timestamp).0,
            packets_are(r, mode1_packetized(old(self)@, bytes_views(data@), timestamp).1),
    {
        let header_len = self.inner.header_serialized_len();
        let payloads = match self.mtu {
            Some(mtu) => {
                let groups = group_nal_units(&data, header_len, mtu);
                payloads_for_groups(&groups, header_len, mtu)
            },
            None => match payload_stap_a(&data) {
                Ok(payload) => {
                    let mut payloads: Vec<Bytes> = Vec::new();
                    payloads.push(payload);
                    assert(bytes_views(payloads@) =~= seq![stap_a(bytes_views(data@))]);
                    Ok(payloads)
                },
                Err(e) => Err(e),
            },
        };
        match payloads {
            Ok(payloads) => {
                let r = emit_all(&mut self.inner, &payloads, timestamp);
                proof {
                    lemma_emitted_keeps_mtu(
                        old(self)@,
                        bytes_views(payloads@),
                        timestamp,
                        true,
                    );
                }
                r
            },
            Err(e) => Err(e),
        }
    }
}

/// Packetizing changes nothing of a packetizer but its sequence number.
pub proof fn lemma_emitted_keeps_mtu(
    state: PacketizerView,
    payloads: Seq<Seq<u8>>,
    timestamp: u32,
    mark_last: bool,
)
    ensures
        emitted(state, payloads, timestamp, mark_last).0.mtu == state.mtu,
        emitted(state, payloads, timestamp, mark_last).0.csrc == state.csrc,
        emitted(state, payloads, timestamp, mark_last).0.ssrc == state.ssrc,
        emitted(state, payloads, timestamp, mark_last).0.payload_type == state.payload_type,
    decreases payloads.len(),
{
    if payloads.len() > 0 {
        lemma_emitted_keeps_mtu(state.advanced(), payloads.skip(1), timestamp, mark_last);
    }
}

/// RTP H.264 packetizer, in one of the two modes that are supported.
#[derive(Debug)]
pub enum H264Packetizer {
    SingleNalUnit(H264PacketizerMode0),
    NonInterleaved(H264PacketizerMode1),
}

impl View for H264Packetizer {
    type V = PacketizerView;

    open spec fn view(&self) -> PacketizerView {
        match self {
            H264Packetizer::SingleNalUnit(inner) => inner@,
            H264Packetizer::NonInterleaved(inner) => inner@,
        }
    }
}

impl H264Packetizer {
    /// Whether the packetizer is ready to packetize: in non-interleaved mode, its size limit
    /// leaves room for fragments.
    pub open spec fn well_formed(&self) -> bool {
        match self {
            H264Packetizer::SingleNalUnit(_) => true,
            H264Packetizer::NonInterleaved(inner) => inner.well_formed() && mtu_fits_fragments(
                inner@.mtu,
                inner@.header_len(),
            ),
        }
    }

    /// The packetization mode.
    pub open spec fn mode(&self) -> H264PacketizationMode {
        match self {
            H264Packetizer::SingleNalUnit(_) => H264PacketizationMode::SingleNalUnit,
            H264Packetizer::NonInterleaved(_) => H264PacketizationMode::NonInterleavedMode,
        }
    }

    /// What packetizing an access unit gives in this packetizer's mode.
    pub open spec fn packetized(&self, nals: Seq<Seq<u8>>, timestamp: u32) -> (
        PacketizerView,
        Result<Seq<PacketView>, ErrorView>,
    ) {
        match self {
            H264Packetizer::SingleNalUnit(_) => mode0_packetized(self@, nals, timestamp),
            H264Packetizer::NonInterleaved(_) => mode1_packetized(self@, nals, timestamp),
        }
    }

    /// A packetizer for `mode`. Interleaved mode is not supported.
    pub fn from_packetization_mode(mode: H264PacketizationMode, params: PacketizationParameters) -> (r:
        Result<H264Packetizer, Error>)
        requires
            12 + 4 * params.csrc@.len() <= usize::MAX,
            mode == H264PacketizationMode::NonInterleavedMode ==> mtu_fits_fragments(
                params.mtu,
                12 + 4 * params.csrc@.len(),
            ),
        ensures
            match mode {
                H264PacketizationMode::InterleavedMode => r matches Err(e) && e@
                    == (ErrorView::H264PacketizationModeUnsupported { mode }),
                _ => {
                    &&& r matches Ok(p)
                    &&& p.well_formed()
                    &&& p.mode() == mode
                    &&& p@.payload_type == params.payload_type
                    &&& p@.ssrc == params.ssrc
                    &&& p@.csrc == params.csrc@
                    &&& p@.mtu == params.mtu
                },
            },
    {
        match mode {
            H264PacketizationMode::SingleNalUnit => Ok(
                H264Packetizer::SingleNalUnit(H264PacketizerMode0::new(params)),
            ),
            H264PacketizationMode::NonInterleavedMode => Ok(
                H264Packetizer::NonInterleaved(H264PacketizerMode1::new(params)),
            ),
            H264PacketizationMode::InterleavedMode => Err(
                Error::H264PacketizationModeUnsupported { mode },
            ),
        }
    }

    /// Packetizes the NAL units of one access unit in the packetizer's mode.
    #[inline]
    pub fn packetize(&mut self, data: Vec<Bytes>, timestamp: u32) -> (r: Result<Vec<Packet>, Error>)
        requires
            old(self).well_formed(),
        ensures
            final(self).well_formed(),
            final(self).mode() == old(self).mode(),
            final(self)@ == old(self).packetized(bytes_views(data@), timestamp).0,
            packets_are(r, old(self).packetized(bytes_views(data@), timestamp).1),
    {
        match self {
            H264Packetizer::SingleNalUnit(inner) => inner.packetize(data, timestamp),
            H264Packetizer::NonInterleaved(inner) => {
                proof {
                    match mode1_packetized(inner@, bytes_views(data@), timestamp).1 {
                        _ => {},
                    }
                    lemma_mode1_keeps_limits(inner@, bytes_views(data@), timestamp);
                }
                inner.packetize(data, timestamp)
            },
        }
    }
}

/// Non-interleaved packetizing changes nothing of a packetizer but its sequence number.
pub proof fn lemma_mode1_keeps_limits(state: PacketizerView, nals: Seq<Seq<u8>>, timestamp: u32)
    ensures
        mode1_packetized(state, nals, timestamp).0.mtu == state.mtu,
        mode1_packetized(state, nals, timestamp).0.csrc == state.csrc,
{
    match state.mtu {
        Some(mtu) => match groups_payloads(
            grouped(nals, state.header_len(), mtu as nat),
            state.header_len(),
            mtu as nat,
        ) {
            Ok(payloads) => lemma_emitted_keeps_mtu(state, payloads, timestamp, true),
            Err(_) => {},
        },
        None => {
            if too_long(nals) is None {
                lemma_emitted_keeps_mtu(state, seq![stap_a(nals)], timestamp, true);
            }
        },
    }
}

/// The NAL units in the aggregation units `s`: each is as long as the 16 bits before it say.
pub open spec fn aggregated_units(s: Seq<u8>) -> Result<Seq<Seq<u8>>, ErrorView>
    decreases s.len(),
{
    if s.len() == 0 {
        Ok(Seq::<Seq<u8>>::empty())
    } else if s.len() < 2 {
        Err(ErrorView::H264AggregationUnitHeaderInvalid { len: s.len() as usize })
    } else {
        let len = u16_at(s, 0) as int;
        if s.len() - 2 < len {
            Err(
                ErrorView::H264AggregationUnitDataTooSmall {
                    have: (s.len() - 2) as usize,
                    need: len as usize,
                },
            )
        } else {
            after(seq![s.subrange(2, 2 + len)], aggregated_units(s.skip(2 + len)))
        }
    }
}

/// The first byte of the NAL unit that a fragmentation unit belongs to: the reference bits
/// of the FU indicator, and the type in the FU header.
pub open spec fn fragmented_first_byte(indicator: u8, header: u8) -> u8 {
    (indicator & 0x60) | (header & 0x1f)
}

/// One FU-A payload meeting the fragment in progress, if any: the fragment in progress
/// afterwards, and the NAL unit that this payload completes, if it completes one.
pub open spec fn fragment_received(buffer: Option<Seq<u8>>, payload: Seq<u8>) -> (
    Option<Seq<u8>>,
    Result<Seq<Seq<u8>>, ErrorView>,
) {
    let start = (payload[1] & 0x80) > 0;
    let end = (payload[1] & 0x40) > 0;
    let data = payload.skip(2);
    let first = fragmented_first_byte(payload[0], payload[1]);
    if start && !end {
        match buffer {
            Some(_) => (buffer, Err(ErrorView::H264FragmentedStateAlreadyStarted)),
            None => (Some(data), Ok(Seq::<Seq<u8>>::empty())),
        }
    } else if !start && !end {
        match buffer {
            Some(so_far) => (Some(so_far + data), Ok(Seq::<Seq<u8>>::empty())),
            None => (buffer, Err(ErrorView::H264FragmentedStateNeverStarted)),
        }
    } else if !start && end {
        match buffer {
            Some(so_far) => (None, Ok(seq![seq![first] + so_far + data])),
            None => (buffer, Err(ErrorView::H264FragmentedStateNeverStarted)),
        }
    } else {
        (buffer, Ok(seq![seq![first] + data]))
    }
}

/// One RTP payload meeting the depacketizer's state: the state afterwards, and the NAL units
/// that the payload hands out. An error leaves the state as it was.
pub open spec fn depacketized(buffer: Option<Seq<u8>>, payload: Seq<u8>) -> (
    Option<Seq<u8>>,
    Result<Seq<Seq<u8>>, ErrorView>,
) {
    if payload.len() <= 1 {
        (buffer, Err(ErrorView::H264NalUnitLengthTooSmall { len: payload.len() as usize }))
    } else {
        let nal_unit_type = payload[0] & 0x1f;
        if 1 <= nal_unit_type <= 23 {
            (buffer, Ok(seq![payload]))
        } else if nal_unit_type == 24 {
            (buffer, aggregated_units(payload.skip(1)))
        } else if nal_unit_type == 25 {
            (
                buffer,
                Err(
                    ErrorView::H264DepacketizationNalUnitTypeUnsupported {
                        nal_unit_type_name: "STAP-B"@,
                    },
                ),
            )
        } else if nal_unit_type == 26 || nal_unit_type == 27 {
            (
                buffer,
                Err(
                    ErrorView::H264DepacketizationNalUnitTypeUnsupported {
                        nal_unit_type_name: "MTAP"@,
                    },
                ),
            )
        } else if nal_unit_type == 28 {
            fragment_received(buffer, payload)
        } else if nal_unit_type == 29 {
            (
                buffer,
                Err(
                    ErrorView::H264DepacketizationNalUnitTypeUnsupported {
                        nal_unit_type_name: "FU-B"@,
                    },
                ),
            )
        } else if nal_unit_type == 30 || nal_unit_type == 31 {
            (buffer, Ok(Seq::<Seq<u8>>::empty()))
        } else {
            (buffer, Err(ErrorView::H264DepacketizationNalUnitTypeUnknown { nal_unit_type }))
        }
    }
}

/// Depacketizing `payloads` one after the other: the state afterwards, and all NAL units
/// handed out, or the first error.
pub open spec fn depacketized_all(buffer: Option<Seq<u8>>, payloads: Seq<Seq<u8>>) -> (
    Option<Seq<u8>>,
    Result<Seq<Seq<u8>>, ErrorView>,
)
    decreases payloads.len(),
{
    if payloads.len() == 0 {
        (buffer, Ok(Seq::<Seq<u8>>::empty()))
    } else {
        let (next, first) = depacketized(buffer, payloads[0]);
        match first {
            Err(e) => (next, Err(e)),
            Ok(units) => {
                let (end, rest) = depacketized_all(next, payloads.skip(1));
                (end, after(units, rest))
            },
        }
    }
}

/// RTP H.264 depacketizer: takes payloads in order and hands out NAL units, putting
/// fragmented units together across packets.
#[derive(Debug)]
pub struct H264Depacketizer {
    fragmented_unit_buffer: Option<BytesMut>,
}

impl View for H264Depacketizer {
    type V = Option<Seq<u8>>;

    closed spec fn view(&self) -> Option<Seq<u8>> {
        match self.fragmented_unit_buffer {
            Some(buffer) => Some(bytes_mut_contents(buffer)),
            None => None,
        }
    }
}

fn unsupported(name: &str) -> (e: Error)
    ensures
        e@ == (ErrorView::H264DepacketizationNalUnitTypeUnsupported { nal_unit_type_name: name@ }),
{
    Error::H264DepacketizationNalUnitTypeUnsupported { nal_unit_type_name: name.to_owned() }
}

/// The NAL units of the aggregation units that follow the first byte of `payload`.
fn split_aggregation_units(payload: &Bytes) -> (r: Result<Vec<Bytes>, Error>)
    requires
        bytes_contents(*payload).len() >= 1,
    ensures
        units_are(r, aggregated_units(bytes_contents(*payload).skip(1))),
{
    let s = bytes_as_slice(payload);
    let ghost all = bytes_contents(*payload);
    let len = s.len();
    let mut out: Vec<Bytes> = Vec::new();
    let mut at: usize = 1;
    proof {
        match aggregated_units(all.skip(1)) {
            Ok(units) => {
                assert(bytes_views(out@) + units =~= units);
            },
            Err(_) => {},
        }
    }
    while at < len
        invariant
            1 <= at <= len,
            len == all.len(),
            s@ == all,
            all == bytes_contents(*payload),
            after(bytes_views(out@), aggregated_units(all.skip(at as int))) == aggregated_units(
                all.skip(1),
            ),
        decreases len - at,
    {
        let ghost rest = all.skip(at as int);
        let ghost before = bytes_views(out@);
        let remaining = len - at;
        if remaining < 2 {
            return Err(Error::H264AggregationUnitHeaderInvalid { len: remaining });
        }
        let nal_unit_length = (((s[at] as u16) << 8) | (s[at + 1] as u16)) as usize;
        proof {
            assert(rest[0] == all[at as int]);
            assert(rest[1] == all[at + 1]);
            assert(u16_at(rest, 0) == nal_unit_length);
        }
        if remaining - 2 < nal_unit_length {
            return Err(
                Error::H264AggregationUnitDataTooSmall { have: remaining - 2, need: nal_unit_length },
            );
        }
        let unit = bytes_slice(payload, at + 2, at + 2 + nal_unit_length);
        out.push(unit);
        proof {
            let piece = rest.subrange(2, 2 + nal_unit_length);
            assert(piece =~= all.subrange(at + 2, at + 2 + nal_unit_length));
            assert(rest.skip(2 + nal_unit_length) =~= all.skip(at + 2 + nal_unit_length));
            assert(bytes_views(out@) =~= before.push(piece));
            match aggregated_units(all.skip(at + 2 + nal_unit_length)) {
                Ok(more) => {
                    assert(before.push(piece) + more =~= before + (seq![piece] + more));
                },
                Err(_) => {},
            }
        }
        at = at + 2 + nal_unit_length;
    }
    proof {
        assert(all.skip(at as int).len() == 0);
        assert(bytes_views(out@) + Seq::<Seq<u8>>::empty() =~= bytes_views(out@));
    }
    Ok(out)
}

impl H264Depacketizer {
    /// A depacketizer with no fragment in progress.
    pub fn new() -> (r: H264Depacketizer)
        ensures
            r@ is None,
    {
        H264Depacketizer { fragmented_unit_buffer: None }
    }

    /// Takes one RTP packet and hands out the NAL units that it completes: the payload itself
    /// for a single NAL unit packet, every unit of an aggregation packet, the reassembled
    /// unit for the last fragment of a fragmented one, and none for a fragment that is not
    /// the last or a payload of a reserved type.
    pub fn depacketize(&mut self, packet: &Packet) -> (r: Result<Vec<Bytes>, Error>)
        ensures
            final(self)@ == depacketized(old(self)@, packet@.payload).0,
            units_are(r, depacketized(old(self)@, packet@.payload).1),
    {
        let payload_len = packet.payload.len();
        if payload_len <= 1 {
            return Err(Error::H264NalUnitLengthTooSmall { len: payload_len });
        }
        let s = bytes_as_slice(&packet.payload);
        let indicator = s[0];
        let nal_unit_type = indicator & 0x1f;
        assert(indicator & 0x1f <= 31) by (bit_vector);
        if 1 <= nal_unit_type && nal_unit_type <= 23 {
            let mut units: Vec<Bytes> = Vec::new();
            units.push(packet.payload.clone());
            assert(bytes_views(units@) =~= seq![packet@.payload]);
            Ok(units)
        } else if nal_unit_type == 24 {
            split_aggregation_units(&packet.payload)
        } else if nal_unit_type == 25 {
            Err(unsupported("STAP-B"))
        } else if nal_unit_type == 26 || nal_unit_type == 27 {
            Err(unsupported("MTAP"))
        } else if nal_unit_type == 28 {
            let fragmentation_unit_header = s[1];
            let start = (fragmentation_unit_header & 0x80) > 0;
            let end = (fragmentation_unit_header & 0x40) > 0;
            let data = vstd::slice::slice_subrange(s, 2, payload_len);
            let first = (indicator & 0x60) | (fragmentation_unit_header & 0x1f);
            assert(data@ =~= packet@.payload.skip(2));
            if start && !end {
                if self.fragmented_unit_buffer.is_some() {
                    return Err(Error::H264FragmentedStateAlreadyStarted);
                }
                let mut buffer = bytes_mut_new();
                buffer.extend_from_slice(data);
                assert(bytes_mut_contents(buffer) =~= data@);
                self.fragmented_unit_buffer = Some(buffer);
                let units: Vec<Bytes> = Vec::new();
                assert(bytes_views(units@) =~= Seq::<Seq<u8>>::empty());
                Ok(units)
            } else if !start {
                match self.fragmented_unit_buffer.take() {
                    Some(buffer) => {
                        let mut buffer = buffer;
                        let ghost so_far = bytes_mut_contents(buffer);
                        if end {
                            let mut nal_unit: Vec<u8> = Vec::new();
                            nal_unit.push(first);
                            nal_unit.extend_from_slice(bytes_mut_as_slice(&buffer));
                            nal_unit.extend_from_slice(data);
                            assert(nal_unit@ =~= seq![first] + so_far + data@);
                            let mut units: Vec<Bytes> = Vec::new();
                            units.push(bytes_from_vec(nal_unit));
                            assert(bytes_views(units@) =~= seq![seq![first] + so_far + data@]);
                            Ok(units)
                        } else {
                            buffer.extend_from_slice(data);
                            self.fragmented_unit_buffer = Some(buffer);
                            let units: Vec<Bytes> = Vec::new();
                            assert(bytes_views(units@) =~= Seq::<Seq<u8>>::empty());
                            Ok(units)
                        }
                    },
                    None => Err(Error::H264FragmentedStateNeverStarted),
                }
            } else {
                let mut nal_unit: Vec<u8> = Vec::new();
                nal_unit.push(first);
                nal_unit.extend_from_slice(data);
                assert(nal_unit@ =~= seq![first] + data@);
                let mut units: Vec<Bytes> = Vec::new();
                units.push(bytes_from_vec(nal_unit));
                assert(bytes_views(units@) =~= seq![seq![first] + data@]);
                Ok(units)
            }
        } else if nal_unit_type == 29 {
            Err(unsupported("FU-B"))
        } else if nal_unit_type == 30 || nal_unit_type == 31 {
            let units: Vec<Bytes> = Vec::new();
            assert(bytes_views(units@) =~= Seq::<Seq<u8>>::empty());
            Ok(units)
        } else {
            Err(Error::H264DepacketizationNalUnitTypeUnknown { nal_unit_type })
        }
    }
}

impl H264PacketizationMode {
    /// The mode that `mode` numbers.
    pub open spec fn of_number(mode: usize) -> Result<H264PacketizationMode, ErrorView> {
        if mode == 0 {
            Ok(H264PacketizationMode::SingleNalUnit)
        } else if mode == 1 {
            Ok(H264PacketizationMode::NonInterleavedMode)
        } else if mode == 2 {
            Ok(H264PacketizationMode::InterleavedMode)
        } else {
            Err(ErrorView::H264PacketizationModeUnknown { mode })
        }
    }

    pub fn try_from(mode: usize) -> (r: Result<H264PacketizationMode, Error>)
        ensures
            match H264PacketizationMode::of_number(mode) {
                Ok(m) => r == Ok::<H264PacketizationMode, Error>(m),
                Err(e) => r matches Err(x) && x@ == e,
            },
    {
        match mode {
            0 => Ok(H264PacketizationMode::SingleNalUnit),
            1 => Ok(H264PacketizationMode::NonInterleavedMode),
            2 => Ok(H264PacketizationMode::InterleavedMode),
            _ => Err(Error::H264PacketizationModeUnknown { mode }),
        }
    }
}

} // verus!
