//! Well-formed logs, and what the reader makes of them.
//!
//! A well-formed log is written record by record, each payload behind its
//! length and before its timestamp, under a header whose `data_offset` is the
//! length of the whole file.

use crate::publisher::{envelope, pause_ms, plan, replay_step, Plan, Session};
use crate::record::Outcome;
use crate::source::{first_place, kind_of, LogKind, Place};
use crate::throttle::lemma_next_send;
use crate::record_log::{
    after_record, field_at, header_active, header_data_offset, header_seq_lock, le_i32, le_u32,
    payloads_of, replay, run, start, step, Cursor, Replay,
};
use vstd::prelude::*;

verus! {

/// The four little-endian bytes of a signed 32-bit value.
pub open spec fn le_bytes(v: int) -> Seq<u8>
    recommends
        i32::MIN <= v <= i32::MAX,
{
    let u = if v < 0 {
        v + 0x1_0000_0000
    } else {
        v
    };
    seq![
        (u % 256) as u8,
        (u / 256 % 256) as u8,
        (u / 256 / 256 % 256) as u8,
        (u / 256 / 256 / 256 % 256) as u8,
    ]
}

/// One record on file.
pub open spec fn record_bytes(payload: Seq<u8>, stamp: Seq<u8>) -> Seq<u8> {
    le_bytes(payload.len() as int) + payload + stamp
}

/// The records of a log on file, one after the other.
pub open spec fn region_bytes(payloads: Seq<Seq<u8>>, stamps: Seq<Seq<u8>>) -> Seq<u8>
    decreases payloads.len(),
{
    if payloads.len() == 0 {
        Seq::empty()
    } else {
        record_bytes(payloads[0], stamps[0]) + region_bytes(
            payloads.drop_first(),
            stamps.drop_first(),
        )
    }
}

/// A whole log on file.
pub open spec fn log_bytes(
    active: u8,
    seq_lock: int,
    payloads: Seq<Seq<u8>>,
    stamps: Seq<Seq<u8>>,
) -> Seq<u8> {
    seq![active] + le_bytes(seq_lock) + le_bytes(9 + region_bytes(payloads, stamps).len() as int)
        + region_bytes(payloads, stamps)
}

/// Every record has an eight-byte timestamp.
pub open spec fn stamped(payloads: Seq<Seq<u8>>, stamps: Seq<Seq<u8>>) -> bool {
    &&& stamps.len() == payloads.len()
    &&& forall|i: int| 0 <= i < stamps.len() ==> (#[trigger] stamps[i]).len() == 8
}

/// The records can be written as a log: each has its timestamp, and the file
/// is short enough for `data_offset` to hold its length.
pub open spec fn writable(payloads: Seq<Seq<u8>>, stamps: Seq<Seq<u8>>) -> bool {
    &&& stamped(payloads, stamps)
    &&& 9 + region_bytes(payloads, stamps).len() <= i32::MAX
}

/// The payloads as the reader hands them out: in order, the last one flagged.
pub open spec fn flagged(payloads: Seq<Seq<u8>>) -> Seq<(Seq<u8>, bool)> {
    Seq::new(payloads.len(), |i: int| (payloads[i], i == payloads.len() - 1))
}

/// Decoding undoes encoding.
pub proof fn lemma_le_round_trip(v: int)
    requires
        i32::MIN <= v <= i32::MAX,
    ensures
        le_bytes(v).len() == 4,
        le_i32(le_bytes(v)) == v,
{
    let u = if v < 0 {
        v + 0x1_0000_0000
    } else {
        v
    };
    let b = le_bytes(v);
    let q1 = u / 256;
    let q2 = q1 / 256;
    let q3 = q2 / 256;
    assert(u == 256 * q1 + u % 256);
    assert(q1 == 256 * q2 + q1 % 256);
    assert(q2 == 256 * q3 + q2 % 256);
    assert(0 <= q3 < 256);
    assert(b[0] == u % 256);
    assert(b[1] == q1 % 256);
    assert(b[2] == q2 % 256);
    assert(b[3] == q3);
    assert(le_u32(b) == u);
}

/// The length of a region is the sum of its records' sizes; a region with a
/// record in it is not empty.
proof fn lemma_region_len(payloads: Seq<Seq<u8>>, stamps: Seq<Seq<u8>>)
    requires
        stamped(payloads, stamps),
        payloads.len() > 0,
    ensures
        region_bytes(payloads, stamps).len() == 12 + payloads[0].len() + region_bytes(
            payloads.drop_first(),
            stamps.drop_first(),
        ).len(),
        stamped(payloads.drop_first(), stamps.drop_first()),
{
    assert(stamps[0].len() == 8);
    assert forall|i: int| 0 <= i < stamps.drop_first().len() implies (
    #[trigger] stamps.drop_first()[i]).len() == 8 by {
        assert(stamps.drop_first()[i] == stamps[i + 1]);
    }
}

/// The first record of a region that fills the file from `pos` to its end:
/// the reader finds its payload, flags it if it is the only one, and then
/// stands before the rest of the region.
proof fn lemma_first_record(file: Seq<u8>, pos: int, payloads: Seq<Seq<u8>>, stamps: Seq<Seq<u8>>)
    requires
        0 <= pos <= file.len() <= i32::MAX,
        stamped(payloads, stamps),
        payloads.len() > 0,
        file.subrange(pos, file.len() as int) == region_bytes(payloads, stamps),
    ensures
        step(file, file.len() as int, Cursor { pos, offset: pos }) == (
            Outcome::Record(payloads[0], payloads.len() == 1),
            Cursor { pos: pos + 12 + payloads[0].len(), offset: pos + 12 + payloads[0].len() },
        ),
        pos + 12 + payloads[0].len() <= file.len(),
        stamped(payloads.drop_first(), stamps.drop_first()),
        file.subrange(pos + 12 + payloads[0].len(), file.len() as int) == region_bytes(
            payloads.drop_first(),
            stamps.drop_first(),
        ),
{
    let len = file.len() as int;
    let c = Cursor { pos, offset: pos };
    let payload = payloads[0];
    let n = payload.len() as int;
    let rest_payloads = payloads.drop_first();
    let rest_stamps = stamps.drop_first();
    let rest = region_bytes(rest_payloads, rest_stamps);
    let region = region_bytes(payloads, stamps);
    lemma_region_len(payloads, stamps);
    assert(region == le_bytes(n) + payload + stamps[0] + rest);
    assert(region.len() == len - pos);
    lemma_le_round_trip(n);
    assert(file.subrange(pos, pos + 4) =~= region.subrange(0, 4));
    assert(region.subrange(0, 4) =~= le_bytes(n));
    assert(field_at(file, pos) == n);
    assert(file.subrange(pos + 4, pos + 4 + n) =~= region.subrange(4, 4 + n));
    assert(region.subrange(4, 4 + n) =~= payload);
    assert(after_record(file, c, n) == Cursor { pos: pos + 12 + n, offset: pos + 12 + n });
    assert(file.subrange(pos + 12 + n, len) =~= region.subrange(12 + n, region.len() as int));
    assert(region.subrange(12 + n, region.len() as int) =~= rest);
    if rest_payloads.len() > 0 {
        lemma_region_len(rest_payloads, rest_stamps);
    }
    assert((pos + 12 + n >= len) == (payloads.len() == 1));
}

/// Reading a region that fills the file from `pos` to its end, with the
/// running offset equal to the position and bounded by the file's length,
/// yields the region's payloads and stops at the end of the file.
proof fn lemma_run_region(file: Seq<u8>, pos: int, payloads: Seq<Seq<u8>>, stamps: Seq<Seq<u8>>)
    requires
        0 <= pos <= file.len() <= i32::MAX,
        stamped(payloads, stamps),
        file.subrange(pos, file.len() as int) == region_bytes(payloads, stamps),
    ensures
        run(file, file.len() as int, Cursor { pos, offset: pos }) == (Replay {
            records: flagged(payloads),
            end: Cursor { pos: file.len() as int, offset: file.len() as int },
            malformed: false,
        }),
    decreases payloads.len(),
{
    let len = file.len() as int;
    if payloads.len() == 0 {
        assert(file.subrange(pos, len).len() == 0);
        assert(pos == len);
        assert(flagged(payloads) =~= Seq::empty());
    } else {
        let next = pos + 12 + payloads[0].len();
        lemma_first_record(file, pos, payloads, stamps);
        lemma_run_region(file, next, payloads.drop_first(), stamps.drop_first());
        assert(flagged(payloads) =~= seq![(payloads[0], payloads.len() == 1)] + flagged(
            payloads.drop_first(),
        ));
    }
}

/// The parts of a well-formed log, as they lie in the file.
proof fn lemma_log_layout(active: u8, seq_lock: int, payloads: Seq<Seq<u8>>, stamps: Seq<Seq<u8>>)
    requires
        i32::MIN <= seq_lock <= i32::MAX,
        writable(payloads, stamps),
    ensures
        log_bytes(active, seq_lock, payloads, stamps).len() == 9 + region_bytes(
            payloads,
            stamps,
        ).len(),
        log_bytes(active, seq_lock, payloads, stamps)[0] == active,
        header_seq_lock(log_bytes(active, seq_lock, payloads, stamps)) == seq_lock,
        header_data_offset(log_bytes(active, seq_lock, payloads, stamps)) == log_bytes(
            active,
            seq_lock,
            payloads,
            stamps,
        ).len(),
        log_bytes(active, seq_lock, payloads, stamps).subrange(
            9,
            log_bytes(active, seq_lock, payloads, stamps).len() as int,
        ) == region_bytes(payloads, stamps),
{
    let region = region_bytes(payloads, stamps);
    let file = log_bytes(active, seq_lock, payloads, stamps);
    let len = file.len() as int;
    lemma_le_round_trip(seq_lock);
    lemma_le_round_trip(9 + region.len() as int);
    assert(len == 9 + region.len());
    assert(file.subrange(1, 5) =~= le_bytes(seq_lock));
    assert(file.subrange(5, 9) =~= le_bytes(9 + region.len() as int));
    assert(file.subrange(9, len) =~= region);
}

/// A well-formed log reads back as it was written.
///
/// For every log of `N` records written as the format lays down, with
/// `data_offset` equal to the length of the file, the reader publishes exactly
/// the `N` payloads, byte for byte and in file order, the last one flagged as
/// last, and finds no malformed record. The header reads back as written.
pub proof fn lemma_well_formed_log_reads_back(
    active: u8,
    seq_lock: int,
    payloads: Seq<Seq<u8>>,
    stamps: Seq<Seq<u8>>,
)
    requires
        i32::MIN <= seq_lock <= i32::MAX,
        writable(payloads, stamps),
    ensures
        replay(log_bytes(active, seq_lock, payloads, stamps)).records == flagged(payloads),
        payloads_of(replay(log_bytes(active, seq_lock, payloads, stamps)).records) == payloads,
        !replay(log_bytes(active, seq_lock, payloads, stamps)).malformed,
        header_active(log_bytes(active, seq_lock, payloads, stamps)) == (active != 0),
        header_seq_lock(log_bytes(active, seq_lock, payloads, stamps)) == seq_lock,
        header_data_offset(log_bytes(active, seq_lock, payloads, stamps)) == log_bytes(
            active,
            seq_lock,
            payloads,
            stamps,
        ).len(),
{
    let file = log_bytes(active, seq_lock, payloads, stamps);
    lemma_log_layout(active, seq_lock, payloads, stamps);
    assert(start(file.len() as int) == Cursor { pos: 9, offset: 9 });
    lemma_run_region(file, 9, payloads, stamps);
    assert(payloads_of(flagged(payloads)) =~= payloads);
}

/// Reading a well-formed log stops exactly at the end of the file.
///
/// When `data_offset` is the length of the file and the records fill it, the
/// reader has read every byte when it stops, and its running offset is
/// `data_offset`: no part of a record is left over.
pub proof fn lemma_well_formed_log_ends_at_end_of_file(
    active: u8,
    seq_lock: int,
    payloads: Seq<Seq<u8>>,
    stamps: Seq<Seq<u8>>,
)
    requires
        i32::MIN <= seq_lock <= i32::MAX,
        writable(payloads, stamps),
    ensures
        replay(log_bytes(active, seq_lock, payloads, stamps)).end.pos == log_bytes(
            active,
            seq_lock,
            payloads,
            stamps,
        ).len(),
        replay(log_bytes(active, seq_lock, payloads, stamps)).end.offset == header_data_offset(
            log_bytes(active, seq_lock, payloads, stamps),
        ),
{
    let file = log_bytes(active, seq_lock, payloads, stamps);
    lemma_log_layout(active, seq_lock, payloads, stamps);
    assert(start(file.len() as int) == Cursor { pos: 9, offset: 9 });
    lemma_run_region(file, 9, payloads, stamps);
}

/// A record on file declares the length of its payload: the length field at
/// its start holds it.
pub proof fn lemma_record_declares_its_length(payload: Seq<u8>, stamp: Seq<u8>)
    requires
        payload.len() <= i32::MAX,
    ensures
        field_at(record_bytes(payload, stamp), 0) == payload.len(),
{
    lemma_le_round_trip(payload.len() as int);
    assert(record_bytes(payload, stamp).subrange(0, 4) =~= le_bytes(payload.len() as int));
}

/// The replay that sends `payloads` in order under `topic` and then ends,
/// when `sent` messages were counted before it. The message that brings the
/// number sent to a multiple of `hwm` is followed by the cool-down pause; the
/// others are followed by none.
pub open spec fn paced(topic: Seq<char>, hwm: int, sent: nat, payloads: Seq<Seq<u8>>) -> Seq<Plan> {
    Seq::new(
        payloads.len() + 1,
        |i: int|
            if i < payloads.len() {
                Plan::Publish(
                    envelope(topic, payloads[i]).0,
                    envelope(topic, payloads[i]).1,
                    pause_ms((sent + i + 1) % hwm == 0),
                )
            } else {
                Plan::Done
            },
    )
}

/// The replay of a region that fills the file from `pos` to its end.
proof fn lemma_plan_region(
    topic: Seq<char>,
    hwm: int,
    sent: nat,
    file: Seq<u8>,
    pos: int,
    payloads: Seq<Seq<u8>>,
    stamps: Seq<Seq<u8>>,
)
    requires
        hwm >= 1,
        0 <= pos <= file.len() <= i32::MAX,
        header_data_offset(file) == file.len(),
        stamped(payloads, stamps),
        file.subrange(pos, file.len() as int) == region_bytes(payloads, stamps),
    ensures
        plan(
            Session {
                topic,
                hwm,
                count: (sent % (hwm as nat)) as int,
                file: Some((file, Place::Binary(Cursor { pos, offset: pos }))),
            },
        ) == paced(topic, hwm, sent, payloads),
    decreases payloads.len(),
{
    let len = file.len() as int;
    let s = Session {
        topic,
        hwm,
        count: (sent % (hwm as nat)) as int,
        file: Some((file, Place::Binary(Cursor { pos, offset: pos }))),
    };
    if payloads.len() == 0 {
        assert(file.subrange(pos, len).len() == 0);
        assert(pos == len);
        assert(replay_step(s).0 == Plan::Done);
        assert(paced(topic, hwm, sent, payloads) =~= seq![Plan::Done]);
    } else {
        let next = pos + 12 + payloads[0].len();
        let rest = payloads.drop_first();
        lemma_first_record(file, pos, payloads, stamps);
        lemma_next_send(hwm, sent);
        let act = Plan::Publish(
            envelope(topic, payloads[0]).0,
            envelope(topic, payloads[0]).1,
            pause_ms((sent + 1) as int % hwm == 0),
        );
        let after = Session {
            topic,
            hwm,
            count: ((sent + 1) % (hwm as nat)) as int,
            file: Some((file, Place::Binary(Cursor { pos: next, offset: next }))),
        };
        assert(replay_step(s) == (act, after));
        lemma_plan_region(topic, hwm, sent + 1, file, next, rest, stamps.drop_first());
        assert(plan(s) == seq![act] + plan(after));
        assert(paced(topic, hwm, sent, payloads) =~= seq![act] + paced(topic, hwm, sent + 1, rest));
    }
}

/// The replay of a well-formed log sends its records, and paces them.
///
/// Take a log of `N` records written as the format lays down, whose first
/// bytes are not valid UTF-8, so that it is read as a binary log, and a
/// high-water mark `hwm >= 1`. Then the replay has `N + 1` steps. Step `i`
/// sends the topic frame, marked as followed by more, and then the `i`-th
/// payload, byte for byte, as the last frame. It pauses for the cool-down
/// exactly if `i + 1` is a multiple of `hwm`, so after every `hwm`-th message.
/// The last step ends the replay.
pub proof fn lemma_replay_of_well_formed_log(
    topic: Seq<char>,
    hwm: int,
    active: u8,
    seq_lock: int,
    payloads: Seq<Seq<u8>>,
    stamps: Seq<Seq<u8>>,
)
    requires
        hwm >= 1,
        i32::MIN <= seq_lock <= i32::MAX,
        writable(payloads, stamps),
        kind_of(log_bytes(active, seq_lock, payloads, stamps)) == LogKind::Binary,
    ensures
        plan(
            Session {
                topic,
                hwm,
                count: 0,
                file: Some(
                    (
                        log_bytes(active, seq_lock, payloads, stamps),
                        first_place(log_bytes(active, seq_lock, payloads, stamps)),
                    ),
                ),
            },
        ) == paced(topic, hwm, 0, payloads),
{
    let file = log_bytes(active, seq_lock, payloads, stamps);
    lemma_log_layout(active, seq_lock, payloads, stamps);
    assert(start(file.len() as int) == Cursor { pos: 9, offset: 9 });
    assert(0nat % (hwm as nat) == 0) by (nonlinear_arith)
        requires
            hwm >= 1,
    ;
    lemma_plan_region(topic, hwm, 0, file, 9, payloads, stamps);
}

} // verus!
