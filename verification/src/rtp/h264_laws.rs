//! What holds between the H.264 packetizers and the depacketizer.

use crate::rtp::error::ErrorView;
use crate::rtp::h264::{
    after, aggregated_units, aggregation_units, bucket_len, depacketized, depacketized_all, emitted,
    fragmented_first_byte, fragments, fragments_from, fu_header, fu_indicator, group_payloads,
    grouped, groups_payloads, len16, mode0_packetized, mode1_packetized, mtu_fits_fragments, stap_a,
    too_long,
};
use crate::rtp::packet::{be16, lemma_u16_bytes, u16_at, PacketView};
use crate::rtp::packetization::PacketizerView;
use vstd::prelude::*;

verus! {

/// A NAL unit as an encoder hands it out: a header byte with a clear forbidden bit and a
/// type between 1 and 23, and at least one byte behind it.
pub open spec fn is_nal_unit(nal: Seq<u8>) -> bool {
    &&& nal.len() >= 2
    &&& nal[0] & 0x80 == 0
    &&& 1 <= nal[0] & 0x1f <= 23
}

pub open spec fn all_nal_units(nals: Seq<Seq<u8>>) -> bool {
    forall|i: int| 0 <= i < nals.len() ==> is_nal_unit(#[trigger] nals[i])
}

/// The payloads of a run of packets.
pub open spec fn payloads_of(packets: Seq<PacketView>) -> Seq<Seq<u8>> {
    Seq::new(packets.len(), |i: int| packets[i].payload)
}

/// The NAL units of all groups, in order.
pub open spec fn flattened(groups: Seq<Seq<Seq<u8>>>) -> Seq<Seq<u8>>
    decreases groups.len(),
{
    if groups.len() == 0 {
        Seq::<Seq<u8>>::empty()
    } else {
        groups[0] + flattened(groups.skip(1))
    }
}

proof fn lemma_flattened_push(groups: Seq<Seq<Seq<u8>>>, group: Seq<Seq<u8>>)
    ensures
        flattened(groups.push(group)) == flattened(groups) + group,
    decreases groups.len(),
{
    let all = groups.push(group);
    if groups.len() == 0 {
        assert(all.skip(1) =~= Seq::<Seq<Seq<u8>>>::empty());
        assert(flattened(all.skip(1)) =~= Seq::<Seq<u8>>::empty());
        assert(flattened(all) =~= flattened(groups) + group);
    } else {
        lemma_flattened_push(groups.skip(1), group);
        assert(all.skip(1) =~= groups.skip(1).push(group));
        assert(flattened(all) =~= flattened(groups) + group);
    }
}

/// Grouping keeps every NAL unit, in order, and leaves no group empty.
pub proof fn lemma_grouped_flattens(nals: Seq<Seq<u8>>, header_len: nat, mtu: nat)
    ensures
        flattened(grouped(nals, header_len, mtu)) == nals,
        forall|k: int|
            0 <= k < grouped(nals, header_len, mtu).len() ==> (#[trigger] grouped(
                nals,
                header_len,
                mtu,
            )[k]).len() >= 1,
    decreases nals.len(),
{
    if nals.len() > 0 {
        let before = grouped(nals.drop_last(), header_len, mtu);
        let nal = nals.last();
        lemma_grouped_flattens(nals.drop_last(), header_len, mtu);
        assert(nals.drop_last().push(nal) =~= nals);
        if before.len() > 0 && header_len + bucket_len(before.last()) + 2 + nal.len() <= mtu {
            let head = before.drop_last();
            assert(head.push(before.last()) =~= before);
            lemma_flattened_push(head, before.last());
            lemma_flattened_push(head, before.last().push(nal));
            assert(flattened(head) + before.last().push(nal) =~= (flattened(head)
                + before.last()).push(nal));
        } else {
            lemma_flattened_push(before, seq![nal]);
            assert(flattened(before) + seq![nal] =~= flattened(before).push(nal));
        }
    }
}

/// Depacketizing one run of payloads after another.
pub proof fn lemma_depacketized_all_concat(
    buffer: Option<Seq<u8>>,
    first: Seq<Seq<u8>>,
    second: Seq<Seq<u8>>,
)
    ensures
        depacketized_all(buffer, first + second) == match depacketized_all(buffer, first).1 {
            Err(e) => depacketized_all(buffer, first),
            Ok(units) => {
                let rest = depacketized_all(depacketized_all(buffer, first).0, second);
                (rest.0, after(units, rest.1))
            },
        },
    decreases first.len(),
{
    if first.len() == 0 {
        assert(first + second =~= second);
        match depacketized_all(buffer, second).1 {
            Ok(units) => {
                assert(Seq::<Seq<u8>>::empty() + units =~= units);
            },
            Err(_) => {},
        }
    } else {
        let all = first + second;
        assert(all[0] == first[0]);
        assert(all.skip(1) =~= first.skip(1) + second);
        let (next, head) = depacketized(buffer, first[0]);
        match head {
            Err(_) => {},
            Ok(units) => {
                lemma_depacketized_all_concat(next, first.skip(1), second);
                match depacketized_all(next, first.skip(1)).1 {
                    Err(_) => {},
                    Ok(more) => {
                        let rest = depacketized_all(
                            depacketized_all(next, first.skip(1)).0,
                            second,
                        );
                        match rest.1 {
                            Ok(last) => {
                                assert(units + (more + last) =~= (units + more) + last);
                            },
                            Err(_) => {},
                        }
                    },
                }
            },
        }
    }
}

proof fn lemma_len16(len: nat)
    requires
        len <= 65535,
    ensures
        len16(len) == len,
        u16_at(be16(len16(len)), 0) == len,
{
    lemma_u16_bytes(len16(len));
}

/// The aggregation units written for a group read back as the group.
pub proof fn lemma_aggregation_round_trip(group: Seq<Seq<u8>>)
    requires
        too_long(group) is None,
    ensures
        aggregated_units(aggregation_units(group)) == Ok::<Seq<Seq<u8>>, ErrorView>(group),
        aggregation_units(group).len() >= 2 * group.len(),
    decreases group.len(),
{
    if group.len() == 0 {
        assert(group =~= Seq::<Seq<u8>>::empty());
    } else {
        let nal = group[0];
        let rest = group.skip(1);
        lemma_aggregation_round_trip(rest);
        let s = aggregation_units(group);
        let tail = aggregation_units(rest);
        assert(s == be16(len16(nal.len())) + nal + tail);
        lemma_len16(nal.len());
        assert(s[0] == be16(len16(nal.len()))[0]);
        assert(s[1] == be16(len16(nal.len()))[1]);
        assert(u16_at(s, 0) == nal.len());
        assert(s.subrange(2, 2 + nal.len() as int) =~= nal);
        assert(s.skip(2 + nal.len() as int) =~= tail);
        assert(seq![nal] + rest =~= group);
    }
}

proof fn lemma_fu_bits(first: u8, start: bool, end: bool)
    ensures
        fu_indicator(first) & 0x1f == 28,
        ((fu_header(first, start, end) & 0x80) > 0) == start,
        ((fu_header(first, start, end) & 0x40) > 0) == end,
        first & 0x80 == 0 ==> fragmented_first_byte(
            fu_indicator(first),
            fu_header(first, start, end),
        ) == first,
{
    let s: u8 = if start {
        0x80
    } else {
        0
    };
    let e: u8 = if end {
        0x40
    } else {
        0
    };
    let i: u8 = (first & 0x60) | 28;
    let h: u8 = (first & 0x1f) | s | e;
    assert(i & 0x1f == 28) by (bit_vector)
        requires
            i == (first & 0x60) | 28,
    ;
    assert(((h & 0x80) > 0) == (s == 0x80) && ((h & 0x40) > 0) == (e == 0x40)) by (bit_vector)
        requires
            h == (first & 0x1f) | s | e,
            s == 0x80 || s == 0,
            e == 0x40 || e == 0,
    ;
    assert(first & 0x80 == 0 ==> ((i & 0x60) | (h & 0x1f)) == first) by (bit_vector)
        requires
            i == (first & 0x60) | 28,
            h == (first & 0x1f) | s | e,
            s == 0x80 || s == 0,
            e == 0x40 || e == 0,
    ;
}

/// The fragments after the first, met with what the earlier fragments carried, complete the
/// NAL unit.
proof fn lemma_fragments_continue(nal: Seq<u8>, chunk: nat, from: int)
    requires
        chunk > 0,
        1 < from < nal.len(),
        nal[0] & 0x80 == 0,
    ensures
        depacketized_all(Some(nal.subrange(1, from)), fragments_from(nal, chunk, from)) == (
            None::<Seq<u8>>,
            Ok::<Seq<Seq<u8>>, ErrorView>(seq![nal]),
        ),
    decreases nal.len() - from,
{
    let to = if from + chunk < nal.len() {
        from + chunk
    } else {
        nal.len() as int
    };
    let end = to == nal.len();
    let payload = seq![fu_indicator(nal[0]), fu_header(nal[0], false, end)] + nal.subrange(
        from,
        to,
    );
    let rest = fragments_from(nal, chunk, to);
    let all = fragments_from(nal, chunk, from);
    assert(all == seq![payload] + rest);
    assert(all[0] == payload);
    assert(all.skip(1) =~= rest);
    lemma_fu_bits(nal[0], false, end);
    assert(payload[0] == fu_indicator(nal[0]));
    assert(payload[1] == fu_header(nal[0], false, end));
    assert(payload.skip(2) =~= nal.subrange(from, to));
    let buffer = nal.subrange(1, from);
    if end {
        assert(rest =~= Seq::<Seq<u8>>::empty());
        assert(depacketized_all(None, rest) == (
            None::<Seq<u8>>,
            Ok::<Seq<Seq<u8>>, ErrorView>(Seq::<Seq<u8>>::empty()),
        ));
        assert(seq![nal[0]] + buffer + nal.subrange(from, to) =~= nal);
        assert(depacketized(Some(buffer), payload) == (
            None::<Seq<u8>>,
            Ok::<Seq<Seq<u8>>, ErrorView>(seq![nal]),
        ));
        assert(seq![nal] + Seq::<Seq<u8>>::empty() =~= seq![nal]);
    } else {
        assert(buffer + nal.subrange(from, to) =~= nal.subrange(1, to));
        assert(depacketized(Some(buffer), payload) == (
            Some(nal.subrange(1, to)),
            Ok::<Seq<Seq<u8>>, ErrorView>(Seq::<Seq<u8>>::empty()),
        ));
        lemma_fragments_continue(nal, chunk, to);
        assert(Seq::<Seq<u8>>::empty() + seq![nal] =~= seq![nal]);
    }
}

/// The fragments of a NAL unit, depacketized in order with no fragment in progress, give
/// the NAL unit back and leave no fragment in progress.
pub proof fn lemma_fragments_round_trip(nal: Seq<u8>, chunk: nat)
    requires
        chunk > 0,
        nal.len() >= 2,
        nal[0] & 0x80 == 0,
    ensures
        depacketized_all(None, fragments(nal, chunk)) == (
            None::<Seq<u8>>,
            Ok::<Seq<Seq<u8>>, ErrorView>(seq![nal]),
        ),
{
    let to = if 1 + chunk < nal.len() {
        1 + chunk as int
    } else {
        nal.len() as int
    };
    let end = to == nal.len();
    let payload = seq![fu_indicator(nal[0]), fu_header(nal[0], true, end)] + nal.subrange(1, to);
    let rest = fragments_from(nal, chunk, to);
    let all = fragments(nal, chunk);
    assert(all == seq![payload] + rest);
    assert(all[0] == payload);
    assert(all.skip(1) =~= rest);
    lemma_fu_bits(nal[0], true, end);
    assert(payload[0] == fu_indicator(nal[0]));
    assert(payload[1] == fu_header(nal[0], true, end));
    assert(payload.skip(2) =~= nal.subrange(1, to));
    if end {
        assert(rest =~= Seq::<Seq<u8>>::empty());
        assert(depacketized_all(None, rest) == (
            None::<Seq<u8>>,
            Ok::<Seq<Seq<u8>>, ErrorView>(Seq::<Seq<u8>>::empty()),
        ));
        assert(seq![nal[0]] + nal.subrange(1, to) =~= nal);
        assert(depacketized(None, payload) == (
            None::<Seq<u8>>,
            Ok::<Seq<Seq<u8>>, ErrorView>(seq![nal]),
        ));
        assert(seq![nal] + Seq::<Seq<u8>>::empty() =~= seq![nal]);
    } else {
        assert(depacketized(None, payload) == (
            Some(nal.subrange(1, to)),
            Ok::<Seq<Seq<u8>>, ErrorView>(Seq::<Seq<u8>>::empty()),
        ));
        lemma_fragments_continue(nal, chunk, to);
        assert(Seq::<Seq<u8>>::empty() + seq![nal] =~= seq![nal]);
    }
}

/// One payload that hands out `units` and leaves no fragment in progress, depacketized as a
/// run of its own.
proof fn lemma_depacketized_one(payload: Seq<u8>, units: Seq<Seq<u8>>)
    requires
        depacketized(None, payload) == (None::<Seq<u8>>, Ok::<Seq<Seq<u8>>, ErrorView>(units)),
    ensures
        depacketized_all(None, seq![payload]) == (
            None::<Seq<u8>>,
            Ok::<Seq<Seq<u8>>, ErrorView>(units),
        ),
{
    let run = seq![payload];
    assert(run[0] == payload);
    assert(run.skip(1) =~= Seq::<Seq<u8>>::empty());
    assert(depacketized_all(None, run.skip(1)) == (
        None::<Seq<u8>>,
        Ok::<Seq<Seq<u8>>, ErrorView>(Seq::<Seq<u8>>::empty()),
    ));
    assert(units + Seq::<Seq<u8>>::empty() =~= units);
}

proof fn lemma_stap_a_round_trip(group: Seq<Seq<u8>>)
    requires
        group.len() >= 1,
        too_long(group) is None,
    ensures
        depacketized(None, stap_a(group)) == (
            None::<Seq<u8>>,
            Ok::<Seq<Seq<u8>>, ErrorView>(group),
        ),
{
    let payload = stap_a(group);
    lemma_aggregation_round_trip(group);
    assert(payload[0] == 24u8);
    assert(24u8 & 0x1f == 24u8) by (bit_vector);
    assert(payload.skip(1) =~= aggregation_units(group));
    assert(payload.len() >= 2);
}

/// The payloads of one group, depacketized in order with no fragment in progress, give the
/// group back and leave no fragment in progress.
pub proof fn lemma_group_round_trip(group: Seq<Seq<u8>>, header_len: nat, mtu: nat)
    requires
        mtu >= header_len + 3,
        group.len() >= 1,
        all_nal_units(group),
        group.len() != 1 ==> too_long(group) is None,
    ensures
        depacketized_all(None, group_payloads(group, header_len, mtu)) == (
            None::<Seq<u8>>,
            Ok::<Seq<Seq<u8>>, ErrorView>(group),
        ),
{
    if group.len() == 1 {
        let nal = group[0];
        assert(is_nal_unit(nal));
        assert(group =~= seq![nal]);
        if header_len + nal.len() <= mtu {
            lemma_depacketized_one(nal, seq![nal]);
        } else {
            lemma_fragments_round_trip(nal, (mtu - header_len - 2) as nat);
        }
    } else {
        lemma_stap_a_round_trip(group);
        lemma_depacketized_one(stap_a(group), group);
    }
}

proof fn lemma_all_nal_units_parts(groups: Seq<Seq<Seq<u8>>>)
    requires
        all_nal_units(flattened(groups)),
        groups.len() > 0,
    ensures
        all_nal_units(groups[0]),
        all_nal_units(flattened(groups.skip(1))),
{
    let all = flattened(groups);
    let head = groups[0];
    let tail = flattened(groups.skip(1));
    assert(all == head + tail);
    assert forall|i: int| 0 <= i < head.len() implies is_nal_unit(#[trigger] head[i]) by {
        assert(all[i] == head[i]);
    }
    assert forall|i: int| 0 <= i < tail.len() implies is_nal_unit(#[trigger] tail[i]) by {
        assert(all[head.len() + i] == tail[i]);
    }
}

/// The payloads of a run of groups, depacketized in order, give the NAL units of the groups.
pub proof fn lemma_groups_round_trip(groups: Seq<Seq<Seq<u8>>>, header_len: nat, mtu: nat)
    requires
        mtu >= header_len + 3,
        forall|k: int| 0 <= k < groups.len() ==> (#[trigger] groups[k]).len() >= 1,
        all_nal_units(flattened(groups)),
        groups_payloads(groups, header_len, mtu) is Ok,
    ensures
        depacketized_all(None, groups_payloads(groups, header_len, mtu)->Ok_0) == (
            None::<Seq<u8>>,
            Ok::<Seq<Seq<u8>>, ErrorView>(flattened(groups)),
        ),
    decreases groups.len(),
{
    if groups.len() > 0 {
        let group = groups[0];
        let rest = groups.skip(1);
        lemma_all_nal_units_parts(groups);
        assert(group.len() >= 1);
        assert forall|k: int| 0 <= k < rest.len() implies (#[trigger] rest[k]).len() >= 1 by {
            assert(rest[k] == groups[k + 1]);
        }
        lemma_group_round_trip(group, header_len, mtu);
        lemma_groups_round_trip(rest, header_len, mtu);
        lemma_depacketized_all_concat(
            None,
            group_payloads(group, header_len, mtu),
            groups_payloads(rest, header_len, mtu)->Ok_0,
        );
    }
}

/// What packetizing hands out on success: one packet for each payload, in order, each
/// within the size limit, and the marker bit on the last packet and on no other.
pub proof fn lemma_emitted_packets(
    state: PacketizerView,
    payloads: Seq<Seq<u8>>,
    timestamp: u32,
)
    requires
        emitted(state, payloads, timestamp, true).1 is Ok,
    ensures
        payloads_of(emitted(state, payloads, timestamp, true).1->Ok_0) == payloads,
        forall|i: int|
            0 <= i < payloads.len() ==> (#[trigger] emitted(
                state,
                payloads,
                timestamp,
                true,
            ).1->Ok_0[i]).header.marker == (i == payloads.len() - 1),
        forall|i: int|
            0 <= i < payloads.len() ==> (state.mtu matches Some(mtu) ==> (#[trigger] emitted(
                state,
                payloads,
                timestamp,
                true,
            ).1->Ok_0[i]).wire_len() <= mtu),
        forall|i: int|
            0 <= i < payloads.len() ==> (#[trigger] emitted(
                state,
                payloads,
                timestamp,
                true,
            ).1->Ok_0[i]).header.extension is None,
    decreases payloads.len(),
{
    let packets = emitted(state, payloads, timestamp, true).1->Ok_0;
    if payloads.len() == 0 {
        assert(payloads_of(packets) =~= payloads);
    } else {
        let first = state.packetized(payloads[0], timestamp, payloads.len() == 1)->Ok_0;
        let rest = emitted(state.advanced(), payloads.skip(1), timestamp, true).1->Ok_0;
        lemma_emitted_packets(state.advanced(), payloads.skip(1), timestamp);
        assert(packets == seq![first] + rest);
        assert(payloads_of(rest) == payloads.skip(1));
        assert forall|i: int| 0 <= i < packets.len() implies packets[i].payload
            == payloads[i] by {
            if i > 0 {
                assert(packets[i] == rest[i - 1]);
                assert(payloads_of(rest)[i - 1] == rest[i - 1].payload);
                assert(payloads.skip(1)[i - 1] == payloads[i]);
            }
        }
        assert(packets.len() == payloads.len());
        assert(payloads_of(packets) =~= payloads);
        assert forall|i: int| 0 <= i < payloads.len() implies (#[trigger] packets[i]).header.marker
            == (i == payloads.len() - 1) by {
            if i > 0 {
                assert(packets[i] == rest[i - 1]);
            }
        }
        assert forall|i: int| 0 <= i < payloads.len() implies (state.mtu matches Some(mtu)
            ==> (#[trigger] packets[i]).wire_len() <= mtu) by {
            if i > 0 {
                assert(packets[i] == rest[i - 1]);
            }
        }
        assert forall|i: int| 0 <= i < payloads.len() implies (
        #[trigger] packets[i]).header.extension is None by {
            if i > 0 {
                assert(packets[i] == rest[i - 1]);
            }
        }
    }
}

/// Size bound: every packet that a packetizer with a size limit hands out, in either mode,
/// is no longer than the limit, and so is its serialized form.
pub proof fn law_packets_within_mtu(
    state: PacketizerView,
    nals: Seq<Seq<u8>>,
    timestamp: u32,
    non_interleaved: bool,
    i: int,
)
    requires
        state.mtu is Some,
        non_interleaved ==> mtu_fits_fragments(state.mtu, state.header_len()),
        (if non_interleaved {
            mode1_packetized(state, nals, timestamp)
        } else {
            mode0_packetized(state, nals, timestamp)
        }).1 matches Ok(packets) && 0 <= i < packets.len(),
    ensures
        ({
            let packets = (if non_interleaved {
                mode1_packetized(state, nals, timestamp)
            } else {
                mode0_packetized(state, nals, timestamp)
            }).1->Ok_0;
            &&& packets[i].wire_len() <= state.mtu->Some_0
            &&& packets[i].serialized() matches Ok(wire) ==> wire.len() <= state.mtu->Some_0
        }),
{
    let mtu = state.mtu->Some_0;
    let payloads = if non_interleaved {
        groups_payloads(
            grouped(nals, state.header_len(), mtu as nat),
            state.header_len(),
            mtu as nat,
        )->Ok_0
    } else {
        nals
    };
    lemma_emitted_packets(state, payloads, timestamp);
    let packets = emitted(state, payloads, timestamp, true).1->Ok_0;
    assert(payloads_of(packets).len() == payloads.len());
    let packet = packets[i];
    crate::rtp::packet::lemma_be32_all_len(packet.header.csrc);
    if packet.serialized() is Ok {
        assert(packet.header.extension is None);
        assert(packet.header.wire().len() == packet.header.wire_len());
    }
}

/// Round trip in non-interleaved mode: when the NAL units of an access unit are packetized
/// under a size limit that leaves room for fragments, depacketizing the payloads of the
/// packets in order, with no fragment in progress, gives the same NAL units in the same
/// order and leaves no fragment in progress. The marker bit is on the last packet and on no
/// other.
pub proof fn law_mode1_round_trip(state: PacketizerView, nals: Seq<Seq<u8>>, timestamp: u32)
    requires
        state.mtu matches Some(mtu) && mtu >= state.header_len() + 3,
        all_nal_units(nals),
        mode1_packetized(state, nals, timestamp).1 is Ok,
    ensures
        ({
            let packets = mode1_packetized(state, nals, timestamp).1->Ok_0;
            &&& depacketized_all(None, payloads_of(packets)) == (
                None::<Seq<u8>>,
                Ok::<Seq<Seq<u8>>, ErrorView>(nals),
            )
            &&& forall|i: int|
                0 <= i < packets.len() ==> (#[trigger] packets[i]).header.marker == (i
                    == packets.len() - 1)
        }),
{
    let mtu = state.mtu->Some_0 as nat;
    let header_len = state.header_len();
    let groups = grouped(nals, header_len, mtu);
    let payloads = groups_payloads(groups, header_len, mtu)->Ok_0;
    lemma_grouped_flattens(nals, header_len, mtu);
    lemma_groups_round_trip(groups, header_len, mtu);
    lemma_emitted_packets(state, payloads, timestamp);
    let packets = emitted(state, payloads, timestamp, true).1->Ok_0;
    assert(payloads_of(packets).len() == payloads.len());
}

/// Round trip in single NAL unit mode: depacketizing the payloads of the packets in order
/// gives the NAL units that were packetized. The marker bit is on the last packet and on no
/// other.
pub proof fn law_mode0_round_trip(state: PacketizerView, nals: Seq<Seq<u8>>, timestamp: u32)
    requires
        all_nal_units(nals),
        mode0_packetized(state, nals, timestamp).1 is Ok,
    ensures
        ({
            let packets = mode0_packetized(state, nals, timestamp).1->Ok_0;
            &&& depacketized_all(None, payloads_of(packets)) == (
                None::<Seq<u8>>,
                Ok::<Seq<Seq<u8>>, ErrorView>(nals),
            )
            &&& forall|i: int|
                0 <= i < packets.len() ==> (#[trigger] packets[i]).header.marker == (i
                    == packets.len() - 1)
        }),
{
    lemma_emitted_packets(state, nals, timestamp);
    let packets = emitted(state, nals, timestamp, true).1->Ok_0;
    assert(payloads_of(packets).len() == nals.len());
    lemma_singles_round_trip(nals);
}

proof fn lemma_singles_round_trip(nals: Seq<Seq<u8>>)
    requires
        all_nal_units(nals),
    ensures
        depacketized_all(None, nals) == (None::<Seq<u8>>, Ok::<Seq<Seq<u8>>, ErrorView>(nals)),
    decreases nals.len(),
{
    if nals.len() == 0 {
        assert(nals =~= Seq::<Seq<u8>>::empty());
    } else {
        assert(is_nal_unit(nals[0]));
        assert forall|i: int| 0 <= i < nals.skip(1).len() implies is_nal_unit(
            #[trigger] nals.skip(1)[i],
        ) by {
            assert(nals.skip(1)[i] == nals[i + 1]);
        }
        lemma_singles_round_trip(nals.skip(1));
        assert(seq![nals[0]] + nals.skip(1) =~= nals);
    }
}

} // verus!
