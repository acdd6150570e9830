//! The console's wire protocol: decoding of request frames and construction of
//! reply frames.

use vstd::prelude::*;
use vstd::string::*;

use crate::clock;
use crate::clock::{LocalTime, MeetDate};
use crate::race::{LaneResultRow, LaneTime, Race, RaceView, RowView};

verus! {

/// Firmware version reported in the identify reply.
pub const FIRMWARE: &'static str = "1.232";

/// Number of lanes in the event-result frame, pinned by the wire format.
pub const WIRE_LANES: usize = 8;

// Frame helpers

/// Sum of the bytes.
pub open spec fn byte_sum(b: Seq<u8>) -> nat
    decreases b.len(),
{
    if b.len() == 0 {
        0
    } else {
        byte_sum(b.drop_last()) + b.last() as nat
    }
}

/// Checksum of the bytes: what their sum lacks to 255, modulo 256.
pub open spec fn checksum(b: Seq<u8>) -> u8 {
    ((255 - byte_sum(b)) % 256) as u8
}

pub fn cts6_chk(bytes: &[u8]) -> (r: u8)
    ensures
        r == checksum(bytes@),
{
    let n: usize = bytes.len();
    let mut acc: u8 = 0;
    let mut i: usize = 0;
    assert(bytes@.take(0) =~= Seq::<u8>::empty());
    while i < n
        invariant
            n == bytes@.len(),
            i <= n,
            acc as int == byte_sum(bytes@.take(i as int)) as int % 256,
        decreases n - i,
    {
        assert(bytes@.take(i + 1).drop_last() =~= bytes@.take(i as int));
        acc = acc.wrapping_add(bytes[i]);
        i = i + 1;
    }
    assert(bytes@.take(n as int) =~= bytes@);
    255 - acc
}

/// The bytes of a frame and their checksum behind them sum to 255, modulo 256.
pub proof fn law_checksum_completes_the_sum(b: Seq<u8>)
    ensures
        byte_sum(b.push(checksum(b))) % 256 == 255,
{
    assert(b.push(checksum(b)).drop_last() =~= b);
}

/// A byte that an ASCII text field keeps.
pub open spec fn is_printable(b: u8) -> bool {
    0x20 <= b <= 0x7E
}

/// Number of bytes before the first NUL.
pub open spec fn nul_pos(b: Seq<u8>) -> nat
    decreases b.len(),
{
    if b.len() > 0 && b[0] != 0 {
        1 + nul_pos(b.skip(1))
    } else {
        0
    }
}

/// The printable characters among the bytes, in order.
pub open spec fn printable_text(b: Seq<u8>) -> Seq<char>
    decreases b.len(),
{
    if b.len() == 0 {
        Seq::empty()
    } else if is_printable(b.last()) {
        printable_text(b.drop_last()).push(b.last() as char)
    } else {
        printable_text(b.drop_last())
    }
}

/// The text of a fixed-width field: its printable characters before the first
/// NUL.
pub open spec fn field_text(b: Seq<u8>) -> Seq<char> {
    printable_text(b.take(nul_pos(b) as int))
}

/// Decode a fixed-width, NUL-padded ASCII string. Non-printable bytes are
/// dropped; the first NUL ends the text.
pub fn ascii_from_null_padded(bytes: &[u8]) -> (r: String)
    ensures
        r@ == field_text(bytes@),
{
    let n: usize = bytes.len();
    let mut out: String = String::new();
    let mut i: usize = 0;
    assert(bytes@.take(0) =~= Seq::<u8>::empty());
    assert(bytes@.skip(0) =~= bytes@);
    while i < n && bytes[i] != 0
        invariant
            n == bytes@.len(),
            i <= n,
            nul_pos(bytes@) == i + nul_pos(bytes@.skip(i as int)),
            out@ == printable_text(bytes@.take(i as int)),
        decreases n - i,
    {
        let b: u8 = bytes[i];
        assert(bytes@.take(i + 1).drop_last() =~= bytes@.take(i as int));
        assert(bytes@.skip(i as int).skip(1) =~= bytes@.skip(i + 1));
        if 0x20 <= b && b <= 0x7E {
            out.push(b as char);
        }
        i = i + 1;
    }
    out
}

/// Low byte.
pub open spec fn lo(v: int) -> u8 {
    (v % 256) as u8
}

/// Second byte.
pub open spec fn hi(v: int) -> u8 {
    (v / 256 % 256) as u8
}

/// A 32-bit number, low byte first.
pub open spec fn le32(v: u32) -> Seq<u8> {
    seq![
        (v % 256) as u8,
        (v / 256 % 256) as u8,
        (v / 65_536 % 256) as u8,
        (v / 16_777_216) as u8,
    ]
}

/// The 16-bit number at `at`, low byte first.
pub open spec fn le16_at(b: Seq<u8>, at: int) -> int {
    b[at] + 256 * b[at + 1]
}

/// The 32-bit number at `at`, low byte first.
pub open spec fn le32_at(b: Seq<u8>, at: int) -> int {
    b[at] + 256 * b[at + 1] + 65_536 * b[at + 2] + 16_777_216 * b[at + 3]
}

/// `n` zero bytes.
pub open spec fn zeros(n: nat) -> Seq<u8> {
    Seq::new(n, |i: int| 0u8)
}

fn put_le32(buf: &mut Vec<u8>, v: u32)
    ensures
        final(buf)@ == old(buf)@ + le32(v),
{
    let ghost before = buf@;
    buf.push((v % 256) as u8);
    buf.push((v / 256 % 256) as u8);
    buf.push((v / 65_536 % 256) as u8);
    buf.push((v / 16_777_216) as u8);
    assert(buf@ =~= before + le32(v));
}

fn put_zeros(buf: &mut Vec<u8>, n: usize)
    ensures
        final(buf)@ == old(buf)@ + zeros(n as nat),
{
    let ghost before = buf@;
    let mut i: usize = 0;
    assert(buf@ =~= before + zeros(0));
    while i < n
        invariant
            i <= n,
            buf@ == before + zeros(i as nat),
        decreases n - i,
    {
        buf.push(0);
        i = i + 1;
        assert(buf@ =~= before + zeros(i as nat));
    }
}

// Event-result frame

/// First backup button: 3 ms after the touchpad.
pub open spec fn backup1(primary: u32) -> u32 {
    if primary > u32::MAX - 3 {
        u32::MAX
    } else {
        (primary + 3) as u32
    }
}

/// Second backup button: 2 ms before the touchpad, but at least 1 for a lane
/// that has a time.
pub open spec fn backup2(primary: u32) -> u32 {
    if primary == 0 {
        0
    } else if primary <= 3 {
        1
    } else {
        (primary - 2) as u32
    }
}

/// `n` split slots filled from `splits`, zero where it has no more.
pub open spec fn split_bytes(splits: Seq<u32>, n: nat) -> Seq<u8>
    decreases n,
{
    if n == 0 {
        Seq::empty()
    } else {
        split_bytes(splits, (n - 1) as nat) + le32(
            if n - 1 < splits.len() {
                splits[n - 1]
            } else {
                0
            },
        )
    }
}

/// Size of a lane block with `splits` split slots.
pub open spec fn stride(splits: nat) -> nat {
    21 + 4 * splits
}

/// A lane's block: place (0xFF for a disqualified lane), split slots, touchpad
/// time, first backup, padding and second backup; all zero for a lane without
/// a row.
pub open spec fn lane_block(row: Option<RowView>, splits: nat) -> Seq<u8> {
    match row {
        None => zeros(stride(splits)),
        Some(r) => seq![
            if r.lane.dq {
                0xFFu8
            } else {
                r.place
            },
        ] + split_bytes(r.lane.splits(), splits) + le32(r.lane.finish()) + le32(
            backup1(r.lane.finish()),
        ) + zeros(8) + le32(backup2(r.lane.finish())),
    }
}

/// The blocks of the first `n` lanes.
pub open spec fn lane_blocks(lanes: Seq<Option<RowView>>, splits: nat, n: nat) -> Seq<u8>
    decreases n,
{
    if n == 0 {
        Seq::empty()
    } else {
        lane_blocks(lanes, splits, (n - 1) as nat) + lane_block(lanes[n - 1], splits)
    }
}

/// Header of the event-result frame. The lane count at byte 16 is set only
/// with split slots.
pub open spec fn event_header(race: RaceView, year: u16) -> Seq<u8> {
    seq![0x05u8, 0x01u8, lo(race.event as int), race.heat, 0u8, 0u8, lo(race.id as int), hi(
        race.id as int,
    )] + zeros(8) + seq![
        if race.splits_count > 0 {
            WIRE_LANES as u8
        } else {
            0u8
        },
    ] + zeros(23) + seq![lo(year as int), hi(year as int), 0u8, 0u8, lo(race.event as int), hi(
        race.event as int,
    ), race.heat, 0u8, lo(race.id as int)]
}

/// The event-result frame: header, the blocks of the first eight lanes and a
/// two-byte trailer.
pub open spec fn event_frame(race: RaceView, year: u16) -> Seq<u8> {
    event_header(race, year) + lane_blocks(race.lanes, race.splits_count as nat, WIRE_LANES as nat)
        + seq![0x00u8, 0xFAu8]
}

/// Appends a lane's block.
fn put_lane_block(buf: &mut Vec<u8>, row: &Option<LaneResultRow>, splits: u8)
    ensures
        final(buf)@ == old(buf)@ + lane_block(crate::race::row_view(*row), splits as nat),
{
    let ghost before = buf@;
    match row {
        None => {
            put_zeros(buf, 21 + 4 * splits as usize);
        },
        Some(r) => {
            let l: &LaneTime = &r.lane;
            let place: u8 = if l.dq {
                0xFF
            } else {
                r.place
            };
            buf.push(place);
            let ghost first = seq![place];
            assert(buf@ =~= before + first);
            let lane_splits: &[u32] = l.split_prefix();
            let n: usize = lane_splits.len();
            let mut s: usize = 0;
            assert(buf@ =~= before + first + split_bytes(lane_splits@, 0));
            while s < splits as usize
                invariant
                    s <= splits,
                    n == lane_splits@.len(),
                    buf@ == before + first + split_bytes(lane_splits@, s as nat),
                decreases splits - s,
            {
                let v: u32 = if s < n {
                    lane_splits[s]
                } else {
                    0
                };
                put_le32(buf, v);
                s = s + 1;
                assert(buf@ =~= before + first + split_bytes(lane_splits@, s as nat));
            }
            let primary: u32 = l.finish_ms();
            put_le32(buf, primary);
            put_le32(buf, primary.saturating_add(3));
            put_zeros(buf, 8);
            let b2: u32 = primary.saturating_sub(2);
            let floor: u32 = if primary > 0 {
                1
            } else {
                0
            };
            put_le32(
                buf,
                if b2 > floor {
                    b2
                } else {
                    floor
                },
            );
            assert(buf@ =~= before + lane_block(Some(r@), splits as nat));
        },
    }
}

/// Build the event-result frame with the given year stamp.
pub fn event_response_for_year(race: &Race, year: u16) -> (r: Vec<u8>)
    requires
        race@.wf(),
    ensures
        r@ == event_frame(race@, year),
{
    let splits: u8 = race.splits_count;
    let mut buf: Vec<u8> = Vec::new();
    buf.push(0x05);
    buf.push(0x01);
    buf.push((race.event % 256) as u8);
    buf.push(race.heat);
    buf.push(0);
    buf.push(0);
    buf.push((race.id % 256) as u8);
    buf.push((race.id / 256) as u8);
    put_zeros(&mut buf, 8);
    buf.push(
        if splits > 0 {
            8
        } else {
            0
        },
    );
    put_zeros(&mut buf, 23);
    buf.push((year % 256) as u8);
    buf.push((year / 256) as u8);
    buf.push(0);
    buf.push(0);
    buf.push((race.event % 256) as u8);
    buf.push((race.event / 256) as u8);
    buf.push(race.heat);
    buf.push(0);
    buf.push((race.id % 256) as u8);
    assert(buf@ =~= event_header(race@, year));
    let ghost head = buf@;
    let mut i: usize = 0;
    assert(buf@ =~= head + lane_blocks(race@.lanes, splits as nat, 0));
    while i < WIRE_LANES
        invariant
            race@.wf(),
            i <= WIRE_LANES,
            buf@ == head + lane_blocks(race@.lanes, splits as nat, i as nat),
        decreases WIRE_LANES - i,
    {
        let ghost before = buf@;
        put_lane_block(&mut buf, &race.lanes[i], splits);
        i = i + 1;
        assert(buf@ =~= head + lane_blocks(race@.lanes, splits as nat, i as nat));
    }
    buf.push(0x00);
    buf.push(0xFA);
    assert(buf@ =~= event_frame(race@, year));
    buf
}

/// Build the event-result frame, stamped with the current year.
pub fn build_event_response(race: &Race) -> (r: Vec<u8>)
    requires
        race@.wf(),
    ensures
        exists|year: u16| year >= 1970 && r@ == #[trigger] event_frame(race@, year),
{
    let year: u16 = clock::current_year();
    event_response_for_year(race, year)
}

proof fn lemma_split_bytes(splits: Seq<u32>, n: nat)
    ensures
        split_bytes(splits, n).len() == 4 * n,
        forall|t: int|
            0 <= t < n ==> #[trigger] le32_at(split_bytes(splits, n), 4 * t) == (if t
                < splits.len() {
                splits[t] as int
            } else {
                0
            }),
    decreases n,
{
    if n > 0 {
        lemma_split_bytes(splits, (n - 1) as nat);
        let prev = split_bytes(splits, (n - 1) as nat);
        let all = split_bytes(splits, n);
        assert forall|t: int| 0 <= t < n implies #[trigger] le32_at(all, 4 * t) == (if t
            < splits.len() {
            splits[t] as int
        } else {
            0
        }) by {
            if t < n - 1 {
                assert(le32_at(prev, 4 * t) == le32_at(all, 4 * t));
            } else {
                let v: u32 = if n - 1 < splits.len() {
                    splits[n - 1]
                } else {
                    0
                };
                lemma_le32(v);
                assert(all[4 * t] == le32(v)[0]);
                assert(all[4 * t + 1] == le32(v)[1]);
                assert(all[4 * t + 2] == le32(v)[2]);
                assert(all[4 * t + 3] == le32(v)[3]);
            }
        }
    }
}

proof fn lemma_le32(v: u32)
    ensures
        le32_at(le32(v), 0) == v,
{
    assert(v == v % 256 + 256 * (v / 256 % 256) + 65_536 * (v / 65_536 % 256) + 16_777_216 * (v
        / 16_777_216)) by (bit_vector);
    assert(v / 16_777_216 < 256) by (bit_vector);
}

proof fn lemma_lane_block_len(row: Option<RowView>, splits: nat)
    ensures
        lane_block(row, splits).len() == stride(splits),
{
    if row is Some {
        lemma_split_bytes(row->0.lane.splits(), splits);
    }
}

proof fn lemma_lane_blocks(lanes: Seq<Option<RowView>>, splits: nat, n: nat, i: int)
    requires
        0 <= i < n,
    ensures
        lane_blocks(lanes, splits, n).len() == n * stride(splits),
        i * stride(splits) + stride(splits) <= n * stride(splits),
        lane_blocks(lanes, splits, n).subrange(
            i * stride(splits),
            i * stride(splits) + stride(splits),
        ) == lane_block(lanes[i], splits),
    decreases n,
{
    let st = stride(splits) as int;
    let all = lane_blocks(lanes, splits, n);
    let prev = lane_blocks(lanes, splits, (n - 1) as nat);
    lemma_lane_block_len(lanes[n - 1], splits);
    if n == 1 {
        assert(prev.len() == 0);
        assert(n * st == st) by (nonlinear_arith)
            requires
                n == 1,
        ;
        assert(i * st == 0) by (nonlinear_arith)
            requires
                i == 0,
        ;
        assert(all.subrange(0, st) =~= lane_block(lanes[i], splits));
    } else {
        if i < n - 1 {
            lemma_lane_blocks(lanes, splits, (n - 1) as nat, i);
        } else {
            lemma_lane_blocks(lanes, splits, (n - 1) as nat, 0);
        }
        assert((n - 1) * st + st == n * st) by (nonlinear_arith);
        if i < n - 1 {
            assert(i * st >= 0) by (nonlinear_arith)
                requires
                    i >= 0,
                    st >= 0,
            ;
            assert(all.subrange(i * st, i * st + st) =~= prev.subrange(i * st, i * st + st));
        } else {
            assert(all.subrange(i * st, i * st + st) =~= lane_block(lanes[i], splits));
        }
    }
}

/// Size of the event-result frame: 49 header bytes, eight lane blocks and two
/// trailer bytes. Without split slots that is 219 bytes.
pub proof fn law_event_frame_length(race: RaceView, year: u16)
    ensures
        event_frame(race, year).len() == 49 + 8 * stride(race.splits_count as nat) + 2,
        race.splits_count == 0 ==> event_frame(race, year).len() == 219,
{
    lemma_lane_blocks(race.lanes, race.splits_count as nat, WIRE_LANES as nat, 0);
}

/// The header of an event-result frame gives back the event, heat, race number
/// and year it was built from, and tells frames with split slots from those
/// without by the lane count at byte 16.
pub proof fn law_event_frame_header_reads_back(race: RaceView, year: u16)
    ensures
        le16_at(event_frame(race, year), 44) == race.event,
        le16_at(event_frame(race, year), 46) == race.heat,
        le16_at(event_frame(race, year), 6) == race.id,
        le16_at(event_frame(race, year), 40) == year,
        event_frame(race, year)[16] == (if race.splits_count > 0 {
            8u8
        } else {
            0u8
        }),
{
    let f = event_frame(race, year);
    let h = event_header(race, year);
    assert(h.len() == 49);
    assert forall|i: int| 0 <= i < 49 implies f[i] == h[i] by {}
    assert(h[44] == lo(race.event as int) && h[45] == hi(race.event as int));
    assert(h[46] == race.heat && h[47] == 0);
    assert(h[6] == lo(race.id as int) && h[7] == hi(race.id as int));
    assert(h[40] == lo(year as int) && h[41] == hi(year as int));
}

/// A lane's block gives back the lane's place (0xFF for a disqualification),
/// its finish time and its splits, as many as the race has slots for.
pub proof fn law_event_frame_lane_reads_back(race: RaceView, year: u16, i: int)
    requires
        0 <= i < WIRE_LANES,
        race.lanes[i] is Some,
    ensures
        ({
            let f = event_frame(race, year);
            let n = race.splits_count as int;
            let base = 49 + i * stride(race.splits_count as nat);
            let row = race.lanes[i]->0;
            &&& f[base] == (if row.lane.dq {
                0xFFu8
            } else {
                row.place
            })
            &&& le32_at(f, base + 1 + 4 * n) == row.lane.finish()
            &&& forall|t: int|
                0 <= t < n ==> #[trigger] le32_at(f, base + 1 + 4 * t) == (if t
                    < row.lane.splits().len() {
                    row.lane.splits()[t] as int
                } else {
                    0
                })
        }),
{
    let f = event_frame(race, year);
    let n = race.splits_count as nat;
    let st = stride(n) as int;
    let base = 49 + i * st;
    let row = race.lanes[i]->0;
    let blocks = lane_blocks(race.lanes, n, WIRE_LANES as nat);
    let block = lane_block(race.lanes[i], n);
    lemma_lane_blocks(race.lanes, n, WIRE_LANES as nat, i);
    lemma_lane_block_len(race.lanes[i], n);
    lemma_split_bytes(row.lane.splits(), n);
    lemma_le32(row.lane.finish());
    assert(event_header(race, year).len() == 49);
    assert(i * st >= 0) by (nonlinear_arith)
        requires
            i >= 0,
            st >= 0,
    ;
    assert forall|j: int| 0 <= j < st implies f[base + j] == #[trigger] block[j] by {
        assert(blocks.subrange(i * st, i * st + st)[j] == blocks[i * st + j]);
    }
    assert(f[base + 0] == block[0]);
    let sp = split_bytes(row.lane.splits(), n);
    assert forall|t: int| 0 <= t < n implies #[trigger] le32_at(f, base + 1 + 4 * t) == (if t
        < row.lane.splits().len() {
        row.lane.splits()[t] as int
    } else {
        0
    }) by {
        assert(le32_at(sp, 4 * t) == (if t < row.lane.splits().len() {
            row.lane.splits()[t] as int
        } else {
            0
        }));
        assert(block[1 + 4 * t] == sp[4 * t]);
        assert(block[1 + 4 * t + 1] == sp[4 * t + 1]);
        assert(block[1 + 4 * t + 2] == sp[4 * t + 2]);
        assert(block[1 + 4 * t + 3] == sp[4 * t + 3]);
    }
    let p = 1 + 4 * n as int;
    assert(block[p] == le32(row.lane.finish())[0]);
    assert(block[p + 1] == le32(row.lane.finish())[1]);
    assert(block[p + 2] == le32(row.lane.finish())[2]);
    assert(block[p + 3] == le32(row.lane.finish())[3]);
}

// Requests

/// Which race of an event and heat a fetch asks for.
#[derive(Debug, Clone, Copy, PartialEq, Eq, Structural)]
pub enum Verb {
    /// `E`: the latest race.
    Latest,
    /// `L`: the race before the cursor.
    Previous,
    /// `N`: the race after the cursor.
    Next,
    /// `R`: a race by its number.
    ByRace,
}

/// A decoded request frame.
#[derive(Debug)]
pub enum Request {
    Identify,
    Commit,
    CommTest,
    /// `Rs`: name of a slot.
    Slot(u8),
    /// `T`: meet status.
    MeetStatus,
    /// SSBIE/SSBIL/SSBIN: keyed by event and heat.
    Fetch { verb: Verb, heat: u8, event: u16 },
    /// SSBIR: keyed by race number.
    FetchByRace { race: u16 },
    /// `Is`: begin a meet download.
    LoadMeetName { slot: u8, name: String },
    /// `It`: write one category label.
    LoadCategoryLabel { category: u8, idx: u8, label: String },
    /// `Iu`: write or clear one event record.
    LoadEventRecord {
        slot: u8,
        event_num: u16,
        distance: u16,
        gender_idx: u8,
        stroke_idx: u8,
        is_relay: bool,
        is_clear: bool,
    },
    /// `Ir`: commit the download.
    FinalizeSlot { slot: u8 },
    /// Anything else.
    Unknown(Vec<u8>),
}

/// What a [`Request`] holds.
pub enum RequestView {
    Identify,
    Commit,
    CommTest,
    Slot(u8),
    MeetStatus,
    Fetch { verb: Verb, heat: u8, event: u16 },
    FetchByRace { race: u16 },
    LoadMeetName { slot: u8, name: Seq<char> },
    LoadCategoryLabel { category: u8, idx: u8, label: Seq<char> },
    LoadEventRecord {
        slot: u8,
        event_num: u16,
        distance: u16,
        gender_idx: u8,
        stroke_idx: u8,
        is_relay: bool,
        is_clear: bool,
    },
    FinalizeSlot { slot: u8 },
    Unknown(Seq<u8>),
}

impl View for Request {
    type V = RequestView;

    open spec fn view(&self) -> RequestView {
        match self {
            Request::Identify => RequestView::Identify,
            Request::Commit => RequestView::Commit,
            Request::CommTest => RequestView::CommTest,
            Request::Slot(s) => RequestView::Slot(*s),
            Request::MeetStatus => RequestView::MeetStatus,
            Request::Fetch { verb, heat, event } => RequestView::Fetch {
                verb: *verb,
                heat: *heat,
                event: *event,
            },
            Request::FetchByRace { race } => RequestView::FetchByRace { race: *race },
            Request::LoadMeetName { slot, name } => RequestView::LoadMeetName {
                slot: *slot,
                name: name@,
            },
            Request::LoadCategoryLabel { category, idx, label } => RequestView::LoadCategoryLabel {
                category: *category,
                idx: *idx,
                label: label@,
            },
            Request::LoadEventRecord {
                slot,
                event_num,
                distance,
                gender_idx,
                stroke_idx,
                is_relay,
                is_clear,
            } => RequestView::LoadEventRecord {
                slot: *slot,
                event_num: *event_num,
                distance: *distance,
                gender_idx: *gender_idx,
                stroke_idx: *stroke_idx,
                is_relay: *is_relay,
                is_clear: *is_clear,
            },
            Request::FinalizeSlot { slot } => RequestView::FinalizeSlot { slot: *slot },
            Request::Unknown(b) => RequestView::Unknown(b@),
        }
    }
}

/// The identify request.
pub open spec fn identify_request() -> Seq<u8> {
    seq![0x05u8, 0x00u8, 0x57u8, 0xA3u8, 0xFFu8]
}

/// The comm-test request.
pub open spec fn comm_test_request() -> Seq<u8> {
    seq![0x05u8, 0x00u8, 0x57u8, 0x8Du8, 0xFFu8]
}

/// The commit request.
pub open spec fn commit_request() -> Seq<u8> {
    seq![0x06u8, 0x00u8, 0x52u8, 0x72u8, 0x35u8, 0xFFu8]
}

/// The meet-status request.
pub open spec fn meet_status_request() -> Seq<u8> {
    seq![0x05u8, 0x00u8, 0x54u8, 0xA6u8, 0xFFu8]
}

/// A frame of `len` bytes that begins with its length, a zero and a two-byte
/// opcode.
pub open spec fn has_opcode(b: Seq<u8>, len: u8, op1: u8, op2: u8) -> bool {
    b.len() == len && b[0] == len && b[1] == 0x00 && b[2] == op1 && b[3] == op2
}

/// A race query of `len` bytes that ends in `trailer`: its length, an address
/// and `SSBI`.
pub open spec fn is_query(b: Seq<u8>, len: u8, trailer: u8) -> bool {
    b.len() == len && b[0] == len && b[2] == 0x53 && b[3] == 0x53 && b[4] == 0x42 && b[5] == 0x49
        && b[len - 1] == trailer
}

/// The verb that a query letter names.
pub open spec fn verb_of(letter: u8) -> Option<Verb> {
    if letter == 0x45 {
        Some(Verb::Latest)
    } else if letter == 0x4C {
        Some(Verb::Previous)
    } else if letter == 0x4E {
        Some(Verb::Next)
    } else if letter == 0x52 {
        Some(Verb::ByRace)
    } else {
        None
    }
}

/// A number reduced by `base`, 0 below it.
pub open spec fn above(v: u8, base: u8) -> u8 {
    if v < base {
        0
    } else {
        (v - base) as u8
    }
}

/// The event record in the payload of an `Iu` frame. A record whose distance,
/// gender and stroke bytes are all zero clears the event; any other one is
/// populated.
pub open spec fn event_record(b: Seq<u8>) -> RequestView {
    RequestView::LoadEventRecord {
        slot: b[4],
        event_num: le16_at(b, 5) as u16,
        distance: le16_at(b, 7) as u16,
        gender_idx: above(b[9], 1),
        stroke_idx: above(b[10], 0x0A),
        is_relay: b[11] == 0x10,
        is_clear: le16_at(b, 7) == 0 && b[9] == 0 && b[10] == 0,
    }
}

/// The request that a frame holds.
pub open spec fn request_of(b: Seq<u8>) -> RequestView {
    if b == identify_request() {
        RequestView::Identify
    } else if b == comm_test_request() {
        RequestView::CommTest
    } else if b == commit_request() {
        RequestView::Commit
    } else if b == meet_status_request() {
        RequestView::MeetStatus
    } else if has_opcode(b, 7, 0x52, 0x73) && b[6] == 0xFF {
        RequestView::Slot(b[4])
    } else if has_opcode(b, 7, 0x49, 0x72) {
        RequestView::FinalizeSlot { slot: b[4] }
    } else if has_opcode(b, 28, 0x49, 0x73) {
        RequestView::LoadMeetName { slot: b[4], name: field_text(b.subrange(5, 26)) }
    } else if has_opcode(b, 24, 0x49, 0x74) {
        RequestView::LoadCategoryLabel {
            category: b[4],
            idx: b[5],
            label: field_text(b.subrange(6, 22)),
        }
    } else if has_opcode(b, 18, 0x49, 0x75) {
        event_record(b)
    } else if is_query(b, 11, 0xFE) && verb_of(b[6]) is Some {
        if verb_of(b[6]) == Some(Verb::ByRace) {
            RequestView::FetchByRace { race: b[7] as u16 }
        } else {
            RequestView::Fetch { verb: verb_of(b[6])->0, heat: b[7], event: b[8] as u16 }
        }
    } else if is_query(b, 13, 0xFD) && verb_of(b[6]) is Some && verb_of(b[6]) != Some(
        Verb::ByRace,
    ) {
        RequestView::Fetch { verb: verb_of(b[6])->0, heat: b[7], event: le16_at(b, 9) as u16 }
    } else {
        RequestView::Unknown(b)
    }
}

/// Whether two byte slices are equal.
fn same_bytes(a: &[u8], b: &[u8]) -> (r: bool)
    ensures
        r == (a@ == b@),
{
    let n: usize = a.len();
    if n != b.len() {
        return false;
    }
    let mut i: usize = 0;
    while i < n
        invariant
            n == a@.len(),
            n == b@.len(),
            i <= n,
            forall|j: int| 0 <= j < i ==> a@[j] == b@[j],
        decreases n - i,
    {
        if a[i] != b[i] {
            return false;
        }
        i = i + 1;
    }
    assert(a@ =~= b@);
    true
}

fn opcode(b: &[u8], len: u8, op1: u8, op2: u8) -> (r: bool)
    requires
        len >= 4,
    ensures
        r == has_opcode(b@, len, op1, op2),
{
    b.len() == len as usize && b[0] == len && b[1] == 0x00 && b[2] == op1 && b[3] == op2
}

fn query(b: &[u8], len: u8, trailer: u8) -> (r: bool)
    requires
        len >= 6,
    ensures
        r == is_query(b@, len, trailer),
{
    b.len() == len as usize && b[0] == len && b[2] == 0x53 && b[3] == 0x53 && b[4] == 0x42 && b[5]
        == 0x49 && b[len as usize - 1] == trailer
}

fn verb_from(letter: u8) -> (r: Option<Verb>)
    ensures
        r == verb_of(letter),
{
    match letter {
        0x45 => Some(Verb::Latest),
        0x4C => Some(Verb::Previous),
        0x4E => Some(Verb::Next),
        0x52 => Some(Verb::ByRace),
        _ => None,
    }
}

fn copy_bytes(b: &[u8]) -> (r: Vec<u8>)
    ensures
        r@ == b@,
{
    let n: usize = b.len();
    let mut out: Vec<u8> = Vec::new();
    let mut i: usize = 0;
    while i < n
        invariant
            n == b@.len(),
            i <= n,
            out@ == b@.take(i as int),
        decreases n - i,
    {
        out.push(b[i]);
        i = i + 1;
        assert(out@ =~= b@.take(i as int));
    }
    assert(out@ =~= b@);
    out
}

/// Decodes a request frame.
pub fn parse_request(buf: &[u8]) -> (r: Request)
    ensures
        r@ == request_of(buf@),
{
    if same_bytes(buf, [0x05, 0x00, 0x57, 0xA3, 0xFF].as_slice()) {
        return Request::Identify;
    }
    if same_bytes(buf, [0x05, 0x00, 0x57, 0x8D, 0xFF].as_slice()) {
        return Request::CommTest;
    }
    if same_bytes(buf, [0x06, 0x00, 0x52, 0x72, 0x35, 0xFF].as_slice()) {
        return Request::Commit;
    }
    if same_bytes(buf, [0x05, 0x00, 0x54, 0xA6, 0xFF].as_slice()) {
        return Request::MeetStatus;
    }
    if opcode(buf, 7, 0x52, 0x73) && buf[6] == 0xFF {
        return Request::Slot(buf[4]);
    }
    if opcode(buf, 7, 0x49, 0x72) {
        return Request::FinalizeSlot { slot: buf[4] };
    }
    if opcode(buf, 28, 0x49, 0x73) {
        let name: String = ascii_from_null_padded(vstd::slice::slice_subrange(buf, 5, 26));
        return Request::LoadMeetName { slot: buf[4], name };
    }
    if opcode(buf, 24, 0x49, 0x74) {
        let label: String = ascii_from_null_padded(vstd::slice::slice_subrange(buf, 6, 22));
        return Request::LoadCategoryLabel { category: buf[4], idx: buf[5], label };
    }
    if opcode(buf, 18, 0x49, 0x75) {
        let event_num: u16 = buf[5] as u16 + 256 * buf[6] as u16;
        let distance: u16 = buf[7] as u16 + 256 * buf[8] as u16;
        let is_relay: bool = buf[11] == 0x10;
        return Request::LoadEventRecord {
            slot: buf[4],
            event_num,
            distance,
            gender_idx: buf[9].saturating_sub(1),
            stroke_idx: buf[10].saturating_sub(0x0A),
            is_relay,
            is_clear: distance == 0 && buf[9] == 0 && buf[10] == 0,
        };
    }
    if query(buf, 11, 0xFE) {
        if let Some(verb) = verb_from(buf[6]) {
            if verb == Verb::ByRace {
                return Request::FetchByRace { race: buf[7] as u16 };
            }
            return Request::Fetch { verb, heat: buf[7], event: buf[8] as u16 };
        }
    }
    if query(buf, 13, 0xFD) {
        if let Some(verb) = verb_from(buf[6]) {
            if verb != Verb::ByRace {
                let event: u16 = buf[9] as u16 + 256 * buf[10] as u16;
                return Request::Fetch { verb, heat: buf[7], event };
            }
        }
    }
    Request::Unknown(copy_bytes(buf))
}

/// The letter of a verb in a query.
pub open spec fn verb_letter(verb: Verb) -> u8 {
    match verb {
        Verb::Latest => 0x45u8,
        Verb::Previous => 0x4Cu8,
        Verb::Next => 0x4Eu8,
        Verb::ByRace => 0x52u8,
    }
}

/// A short race query.
pub open spec fn short_query(address: u8, verb: Verb, first: u8, second: u8, chk: u8) -> Seq<u8> {
    seq![0x0Bu8, address, 0x53u8, 0x53u8, 0x42u8, 0x49u8, verb_letter(verb), first, second, chk, 0xFEu8]
}

/// A long race query.
pub open spec fn long_query(address: u8, verb: Verb, heat: u16, event: u16, chk: u8) -> Seq<u8> {
    seq![
        0x0Du8,
        address,
        0x53u8,
        0x53u8,
        0x42u8,
        0x49u8,
        verb_letter(verb),
        lo(heat as int),
        hi(heat as int),
        lo(event as int),
        hi(event as int),
        chk,
        0xFDu8,
    ]
}

/// A short query is read back as the query it was built from, whatever its
/// address and checksum: heat and event for the three walking verbs, the race
/// number for a query by race.
pub proof fn law_short_query_reads_back(
    address: u8,
    verb: Verb,
    first: u8,
    second: u8,
    chk: u8,
)
    ensures
        request_of(short_query(address, verb, first, second, chk)) == (if verb == Verb::ByRace {
            RequestView::FetchByRace { race: first as u16 }
        } else {
            RequestView::Fetch { verb, heat: first, event: second as u16 }
        }),
{
    let b = short_query(address, verb, first, second, chk);
    assert(b.len() == 11);
    assert(b[0] == 0x0B && b[10] == 0xFE && b[6] == verb_letter(verb));
    assert(identify_request().len() == 5 && comm_test_request().len() == 5);
    assert(commit_request().len() == 6 && meet_status_request().len() == 5);
}

/// A long query of a walking verb is read back with the full event number; of
/// the heat only the low byte is read.
pub proof fn law_long_query_reads_back(address: u8, verb: Verb, heat: u16, event: u16, chk: u8)
    requires
        verb != Verb::ByRace,
    ensures
        request_of(long_query(address, verb, heat, event, chk)) == (RequestView::Fetch {
            verb,
            heat: lo(heat as int),
            event,
        }),
{
    let b = long_query(address, verb, heat, event, chk);
    assert(b.len() == 13);
    assert(b[0] == 0x0D && b[12] == 0xFD && b[6] == verb_letter(verb));
    assert(b[9] == lo(event as int) && b[10] == hi(event as int));
    assert(identify_request().len() == 5 && comm_test_request().len() == 5);
    assert(commit_request().len() == 6 && meet_status_request().len() == 5);
}

/// The bytes of a text field `width` bytes wide: the characters of the text
/// and NULs behind them.
pub open spec fn field_bytes(s: Seq<char>, width: nat) -> Seq<u8> {
    Seq::new(
        width,
        |i: int|
            if i < s.len() {
                s[i] as u8
            } else {
                0u8
            },
    )
}

/// A text that a field carries unchanged: printable ASCII.
pub open spec fn is_field_text(s: Seq<char>) -> bool {
    forall|i: int| 0 <= i < s.len() ==> ' ' <= (#[trigger] s[i]) && s[i] <= '~'
}

proof fn lemma_nul_pos(b: Seq<u8>, n: nat)
    requires
        n <= b.len(),
        forall|i: int| 0 <= i < n ==> #[trigger] b[i] != 0,
        n < b.len() ==> b[n as int] == 0,
    ensures
        nul_pos(b) == n,
    decreases n,
{
    if n > 0 {
        assert(b[0] != 0);
        let r = b.skip(1);
        assert forall|i: int| 0 <= i < n - 1 implies #[trigger] r[i] != 0 by {
            assert(r[i] == b[i + 1]);
        }
        lemma_nul_pos(r, (n - 1) as nat);
    }
}

proof fn lemma_printable_text(s: Seq<char>, b: Seq<u8>)
    requires
        is_field_text(s),
        b.len() == s.len(),
        forall|i: int| 0 <= i < s.len() ==> #[trigger] b[i] == s[i] as u8,
    ensures
        printable_text(b) == s,
    decreases s.len(),
{
    if s.len() > 0 {
        let n = s.len() - 1;
        assert(b[n] == s[n] as u8);
        assert(' ' <= s[n] && s[n] <= '~');
        assert forall|i: int| 0 <= i < s.drop_last().len() implies #[trigger] b.drop_last()[i]
            == s.drop_last()[i] as u8 by {
            assert(b[i] == s[i] as u8);
        }
        assert forall|i: int| 0 <= i < s.drop_last().len() implies ' ' <= (
        #[trigger] s.drop_last()[i]) && s.drop_last()[i] <= '~' by {
            assert(' ' <= s[i] && s[i] <= '~');
        }
        lemma_printable_text(s.drop_last(), b.drop_last());
        assert(printable_text(b) =~= s);
    } else {
        assert(printable_text(b) =~= s);
    }
}

/// A text of printable ASCII that fits its field is read back unchanged.
pub proof fn law_field_text_reads_back(s: Seq<char>, width: nat)
    requires
        is_field_text(s),
        s.len() <= width,
    ensures
        field_text(field_bytes(s, width)) == s,
{
    let b = field_bytes(s, width);
    assert forall|i: int| 0 <= i < s.len() implies #[trigger] b[i] != 0 && b[i] == s[i] as u8 by {
        assert(' ' <= s[i] && s[i] <= '~');
    }
    lemma_nul_pos(b, s.len());
    lemma_printable_text(s, b.take(s.len() as int));
}

/// A meet-name frame.
pub open spec fn meet_name_frame(slot: u8, name: Seq<char>, chk_lo: u8, chk_hi: u8) -> Seq<u8> {
    seq![0x1Cu8, 0x00u8, 0x49u8, 0x73u8, slot] + field_bytes(name, 21) + seq![chk_lo, chk_hi]
}

/// A category-label frame.
pub open spec fn category_frame(
    category: u8,
    idx: u8,
    label: Seq<char>,
    chk_lo: u8,
    chk_hi: u8,
) -> Seq<u8> {
    seq![0x18u8, 0x00u8, 0x49u8, 0x74u8, category, idx] + field_bytes(label, 16) + seq![
        chk_lo,
        chk_hi,
    ]
}

/// A meet-name frame is read back with the slot and the name it was built
/// from, whatever its checksum.
pub proof fn law_meet_name_frame_reads_back(slot: u8, name: Seq<char>, chk_lo: u8, chk_hi: u8)
    requires
        is_field_text(name),
        name.len() <= 21,
    ensures
        request_of(meet_name_frame(slot, name, chk_lo, chk_hi)) == (RequestView::LoadMeetName {
            slot,
            name,
        }),
{
    let b = meet_name_frame(slot, name, chk_lo, chk_hi);
    assert(b.len() == 28);
    assert(b.subrange(5, 26) =~= field_bytes(name, 21));
    law_field_text_reads_back(name, 21);
    assert(identify_request().len() == 5 && comm_test_request().len() == 5);
    assert(commit_request().len() == 6 && meet_status_request().len() == 5);
}

/// A category-label frame is read back with the category, index and label it
/// was built from, whatever its checksum.
pub proof fn law_category_frame_reads_back(
    category: u8,
    idx: u8,
    label: Seq<char>,
    chk_lo: u8,
    chk_hi: u8,
)
    requires
        is_field_text(label),
        label.len() <= 16,
    ensures
        request_of(category_frame(category, idx, label, chk_lo, chk_hi)) == (
        RequestView::LoadCategoryLabel { category, idx, label }),
{
    let b = category_frame(category, idx, label, chk_lo, chk_hi);
    assert(b.len() == 24);
    assert(b.subrange(6, 22) =~= field_bytes(label, 16));
    law_field_text_reads_back(label, 16);
    assert(identify_request().len() == 5 && comm_test_request().len() == 5);
    assert(commit_request().len() == 6 && meet_status_request().len() == 5);
}

/// A finalize-slot frame is told from a slot query by its opcode, also where
/// its last checksum byte equals the query's trailer.
pub proof fn law_finalize_is_not_a_slot_query(slot: u8, chk_lo: u8, chk_hi: u8)
    ensures
        request_of(seq![0x07u8, 0x00u8, 0x49u8, 0x72u8, slot, chk_lo, chk_hi])
            == (RequestView::FinalizeSlot { slot }),
        request_of(seq![0x07u8, 0x00u8, 0x52u8, 0x73u8, slot, chk_lo, 0xFFu8])
            == RequestView::Slot(slot),
{
    assert(identify_request().len() == 5 && comm_test_request().len() == 5);
    assert(commit_request().len() == 6 && meet_status_request().len() == 5);
    let a = seq![0x07u8, 0x00u8, 0x49u8, 0x72u8, slot, chk_lo, chk_hi];
    let b = seq![0x07u8, 0x00u8, 0x52u8, 0x73u8, slot, chk_lo, 0xFFu8];
    assert(a.len() == 7 && b.len() == 7);
    assert(a[2] == 0x49 && b[6] == 0xFF);
}

// Replies

/// Reply to a request that is not understood: the no-data frame.
pub fn nack() -> (r: Vec<u8>)
    ensures
        r@ == no_data_frame(),
{
    no_data_reply()
}

/// The generic acknowledgement of a download frame.
pub open spec fn load_ack_frame() -> Seq<u8> {
    seq![0x06u8, 0x00u8, 0x06u8, 0x00u8, 0xF3u8, 0xFFu8]
}

/// The generic 6-byte acknowledgement of accepted download frames.
pub fn load_ack() -> (r: Vec<u8>)
    ensures
        r@ == load_ack_frame(),
{
    vec![0x06, 0x00, 0x06, 0x00, 0xF3, 0xFF]
}

/// The "slot committed" acknowledgement.
pub open spec fn finalize_ack_frame() -> Seq<u8> {
    seq![0x06u8, 0x00u8, 0x64u8, 0x00u8, 0x95u8, 0xFFu8]
}

/// The 6-byte "slot committed" acknowledgement of a finalize frame.
pub fn finalize_ack() -> (r: Vec<u8>)
    ensures
        r@ == finalize_ack_frame(),
{
    vec![0x06, 0x00, 0x64, 0x00, 0x95, 0xFF]
}

/// The "nothing to report" frame.
pub open spec fn no_data_frame() -> Seq<u8> {
    seq![0x06u8, 0x00u8, 0x32u8, 0x00u8, 0xC7u8, 0xFFu8]
}

/// The 6-byte "nothing to report" frame returned when a query has no matching
/// race. Silence would look like a stalled connection to a polling client.
pub fn no_data_reply() -> (r: Vec<u8>)
    ensures
        r@ == no_data_frame(),
{
    vec![0x06, 0x00, 0x32, 0x00, 0xC7, 0xFF]
}

/// The identify reply: its length, the firmware version in ASCII between NULs,
/// and a trailer.
pub open spec fn identify_frame() -> Seq<u8> {
    seq![0x0Au8, 0x00u8, 0x31u8, 0x2Eu8, 0x32u8, 0x33u8, 0x32u8, 0x00u8, 0xFFu8, 0xFEu8]
}

pub fn identify_reply() -> (r: Vec<u8>)
    ensures
        r@ == identify_frame(),
{
    let s: &[u8] = FIRMWARE.as_bytes();
    proof {
        reveal_strlit("1.232");
        assert(vstd::string::is_ascii(FIRMWARE));
        vstd::string::is_ascii_spec_bytes(FIRMWARE);
        assert(s@ =~= seq![0x31u8, 0x2Eu8, 0x32u8, 0x33u8, 0x32u8]);
    }
    let mut buf: Vec<u8> = Vec::new();
    buf.push((s.len() + 5) as u8);
    buf.push(0x00);
    let mut i: usize = 0;
    let ghost head = buf@;
    while i < s.len()
        invariant
            i <= s@.len(),
            buf@ == head + s@.take(i as int),
        decreases s@.len() - i,
    {
        buf.push(s[i]);
        i = i + 1;
        assert(buf@ =~= head + s@.take(i as int));
    }
    buf.push(0x00);
    buf.push(0xFF);
    buf.push(0xFE);
    assert(buf@ =~= identify_frame());
    buf
}

/// The commit acknowledgement.
pub open spec fn commit_ack_frame() -> Seq<u8> {
    seq![0x05u8, 0x00u8, 0x07u8, 0xF3u8, 0xFFu8]
}

pub fn commit_ack() -> (r: Vec<u8>)
    ensures
        r@ == commit_ack_frame(),
{
    vec![0x05, 0x00, 0x07, 0xF3, 0xFF]
}

/// The comm-test acknowledgement.
pub open spec fn comm_test_ack_frame() -> Seq<u8> {
    seq![0x06u8, 0x00u8, 0x32u8, 0x01u8, 0x3Bu8, 0xEBu8]
}

pub fn comm_test_ack() -> (r: Vec<u8>)
    ensures
        r@ == comm_test_ack_frame(),
{
    vec![0x06, 0x00, 0x32, 0x01, 0x3B, 0xEB]
}

/// The first `width` bytes of `b`, filled up with NULs.
pub open spec fn fixed(b: Seq<u8>, width: nat) -> Seq<u8> {
    Seq::new(
        width,
        |i: int|
            if i < b.len() {
                b[i]
            } else {
                0u8
            },
    )
}

/// The slot reply before its checksum: length, zero, slot number, the name in
/// 20 bytes and two flags.
pub open spec fn slot_body(slot: u8, name: Seq<char>) -> Seq<u8> {
    seq![0x1Au8, 0x00u8, slot] + fixed(vstd::utf8::encode_utf8(name), 20) + seq![0x00u8, 0x00u8]
}

/// The slot reply.
pub open spec fn slot_frame(slot: u8, name: Seq<char>) -> Seq<u8> {
    slot_body(slot, name).push(checksum(slot_body(slot, name)))
}

pub fn slot_reply(slot: u8, name: &str) -> (r: Vec<u8>)
    ensures
        r@ == slot_frame(slot, name@),
        r@.len() == 26,
{
    let bytes: &[u8] = name.as_bytes();
    let n: usize = bytes.len();
    let mut buf: Vec<u8> = Vec::new();
    buf.push(0x1A);
    buf.push(0x00);
    buf.push(slot);
    let ghost head = buf@;
    let ghost field = fixed(bytes@, 20);
    let mut i: usize = 0;
    while i < 20
        invariant
            i <= 20,
            n == bytes@.len(),
            field == fixed(bytes@, 20),
            buf@ == head + field.take(i as int),
        decreases 20 - i,
    {
        let b: u8 = if i < n {
            bytes[i]
        } else {
            0
        };
        buf.push(b);
        i = i + 1;
        assert(buf@ =~= head + field.take(i as int));
    }
    buf.push(0x00);
    buf.push(0x00);
    assert(buf@ =~= slot_body(slot, name@));
    let chk: u8 = cts6_chk(buf.as_slice());
    buf.push(chk);
    buf
}

/// The meet-status frame: clock at bytes 8 to 14 (second, minute, hour, day of
/// the week from 1 for Sunday, month, day, years since 2000 or 0), year at 40
/// and 41.
pub open spec fn status_frame(t: LocalTime) -> Seq<u8> {
    seq![0x33u8] + zeros(7) + seq![
        t.second as u8,
        t.minute as u8,
        t.hour as u8,
        (t.days_from_sunday + 1) as u8,
        t.month as u8,
        t.day as u8,
        if 2000 <= t.year <= 2255 {
            (t.year - 2000) as u8
        } else {
            0u8
        },
    ] + zeros(25) + seq![lo(t.year as int), hi(t.year as int)] + zeros(8) + seq![0xFBu8]
}

/// Adds the low sixteen bits of a year.
fn put_year(buf: &mut Vec<u8>, year: i32)
    requires
        -262_144 <= year <= 262_143,
    ensures
        final(buf)@ == old(buf)@ + seq![lo(year as int), hi(year as int)],
{
    let ghost head = buf@;
    let y: u32 = (year + 1_048_576) as u32;
    buf.push((y % 256) as u8);
    buf.push((y / 256 % 256) as u8);
    assert(buf@ =~= head + seq![lo(year as int), hi(year as int)]);
}

/// The meet-status frame for a local date and time.
pub fn status_reply_for(t: LocalTime) -> (r: Vec<u8>)
    requires
        t.wf(),
    ensures
        r@ == status_frame(t),
        r@.len() == 51,
{
    let mut buf: Vec<u8> = Vec::new();
    buf.push(0x33);
    put_zeros(&mut buf, 7);
    assert(buf@ =~= seq![0x33u8] + zeros(7));
    let years: u8 = if 2000 <= t.year && t.year <= 2255 {
        (t.year - 2000) as u8
    } else {
        0
    };
    let ghost head = buf@;
    buf.push(t.second as u8);
    buf.push(t.minute as u8);
    buf.push(t.hour as u8);
    buf.push((t.days_from_sunday + 1) as u8);
    buf.push(t.month as u8);
    buf.push(t.day as u8);
    buf.push(years);
    assert(buf@ =~= head + seq![
        t.second as u8,
        t.minute as u8,
        t.hour as u8,
        (t.days_from_sunday + 1) as u8,
        t.month as u8,
        t.day as u8,
        years,
    ]);
    put_zeros(&mut buf, 25);
    put_year(&mut buf, t.year);
    put_zeros(&mut buf, 8);
    let ghost head = buf@;
    buf.push(0xFB);
    assert(buf@ =~= head + seq![0xFBu8]);
    buf
}

/// The meet-status frame for a moment.
pub fn meet_status_reply(date: &MeetDate) -> (r: Vec<u8>)
    requires
        date.wf(),
    ensures
        r@ == status_frame(clock::local_time_of(*date)),
        r@.len() == 51,
{
    let t: LocalTime = clock::local_time(*date);
    status_reply_for(t)
}

// Framing

/// Bytes of a frame that follow its first byte. The first byte is the length
/// of the whole frame; a zero stands alone.
pub open spec fn rest_len(first: u8) -> nat {
    if first == 0 {
        0
    } else {
        (first - 1) as nat
    }
}

/// How many bytes are still to be read after a frame's first byte.
pub fn frame_rest_len(first: u8) -> (r: usize)
    ensures
        r == rest_len(first),
{
    if first == 0 {
        0
    } else {
        first as usize - 1
    }
}

/// A frame put together from its first byte and the bytes read after it.
pub fn assemble_frame(first: u8, rest: &[u8]) -> (r: Vec<u8>)
    ensures
        r@ == seq![first] + rest@,
{
    let n: usize = rest.len();
    let mut buf: Vec<u8> = Vec::new();
    buf.push(first);
    let mut i: usize = 0;
    while i < n
        invariant
            n == rest@.len(),
            i <= n,
            buf@ == seq![first] + rest@.take(i as int),
        decreases n - i,
    {
        buf.push(rest[i]);
        i = i + 1;
        assert(buf@ =~= seq![first] + rest@.take(i as int));
    }
    assert(buf@ =~= seq![first] + rest@);
    buf
}

/// The frames of a byte stream, in order; an incomplete frame at its end is
/// not one.
pub open spec fn frames(stream: Seq<u8>) -> Seq<Seq<u8>>
    decreases stream.len(),
{
    if stream.len() == 0 || stream.len() < 1 + rest_len(stream[0]) {
        Seq::empty()
    } else {
        let n = 1 + rest_len(stream[0]) as int;
        seq![stream.take(n)] + frames(stream.skip(n))
    }
}

/// Frames are length-prefixed: a frame whose first byte is its length is read
/// off the stream whole, and what follows it is read as if it stood alone.
pub proof fn law_frames_are_length_prefixed(frame: Seq<u8>, stream: Seq<u8>)
    requires
        0 < frame.len() <= 255,
        frame[0] == frame.len(),
    ensures
        frames(frame + stream) == seq![frame] + frames(stream),
{
    let all = frame + stream;
    let n = frame.len() as int;
    assert(all[0] == frame[0]);
    assert(all.take(n) =~= frame);
    assert(all.skip(n) =~= stream);
}

// Text forms

/// A hexadecimal digit, upper case.
pub open spec fn hex_digit(d: int) -> char {
    if d < 10 {
        (48 + d) as char
    } else {
        (55 + d) as char
    }
}

/// The bytes in upper-case hexadecimal, two digits each, separated by blanks.
pub open spec fn hex_text(b: Seq<u8>) -> Seq<char>
    decreases b.len(),
{
    if b.len() == 0 {
        Seq::empty()
    } else {
        let head = if b.len() == 1 {
            Seq::empty()
        } else {
            hex_text(b.drop_last()).push(' ')
        };
        head.push(hex_digit(b.last() as int / 16)).push(hex_digit(b.last() as int % 16))
    }
}

fn hex_char(d: u8) -> (r: char)
    requires
        d < 16,
    ensures
        r == hex_digit(d as int),
{
    if d < 10 {
        (48 + d) as char
    } else {
        (55 + d) as char
    }
}

/// The bytes in hexadecimal, for the log.
pub fn hex(bytes: &[u8]) -> (r: String)
    ensures
        r@ == hex_text(bytes@),
{
    let n: usize = bytes.len();
    let mut s: String = String::new();
    let mut i: usize = 0;
    assert(bytes@.take(0) =~= Seq::<u8>::empty());
    while i < n
        invariant
            n == bytes@.len(),
            i <= n,
            s@ == hex_text(bytes@.take(i as int)),
        decreases n - i,
    {
        assert(bytes@.take(i + 1).drop_last() =~= bytes@.take(i as int));
        if i > 0 {
            s.push(' ');
        }
        let b: u8 = bytes[i];
        s.push(hex_char(b / 16));
        s.push(hex_char(b % 16));
        i = i + 1;
        assert(s@ =~= hex_text(bytes@.take(i as int)));
    }
    assert(bytes@.take(n as int) =~= bytes@);
    s
}

/// An event-record frame with the given fields and any bytes behind them.
pub open spec fn record_frame(
    slot: u8,
    event_num: u16,
    distance: u16,
    gender_idx: u8,
    stroke_idx: u8,
    is_relay: bool,
    tail: Seq<u8>,
) -> Seq<u8> {
    seq![
        0x12u8,
        0x00u8,
        0x49u8,
        0x75u8,
        slot,
        lo(event_num as int),
        hi(event_num as int),
        lo(distance as int),
        hi(distance as int),
        (gender_idx + 1) as u8,
        (stroke_idx + 0x0A) as u8,
        if is_relay {
            0x10u8
        } else {
            0x00u8
        },
    ] + tail
}

/// An event-record frame is read back as the record it was built from.
pub proof fn law_record_frame_reads_back(
    slot: u8,
    event_num: u16,
    distance: u16,
    gender_idx: u8,
    stroke_idx: u8,
    is_relay: bool,
    tail: Seq<u8>,
)
    requires
        gender_idx < 0xFF,
        stroke_idx <= 0xF5,
        tail.len() == 6,
    ensures
        request_of(
            record_frame(slot, event_num, distance, gender_idx, stroke_idx, is_relay, tail),
        ) == (RequestView::LoadEventRecord {
            slot,
            event_num,
            distance,
            gender_idx,
            stroke_idx,
            is_relay,
            is_clear: false,
        }),
{
    let b = record_frame(slot, event_num, distance, gender_idx, stroke_idx, is_relay, tail);
    assert(b.len() == 18);
    assert(b[0] == 0x12 && b[1] == 0x00 && b[2] == 0x49 && b[3] == 0x75 && b[4] == slot);
    assert(b[5] == lo(event_num as int) && b[6] == hi(event_num as int));
    assert(b[7] == lo(distance as int) && b[8] == hi(distance as int));
    assert(b[9] == gender_idx + 1 && b[10] == stroke_idx + 0x0A);
    assert(identify_request().len() == 5 && comm_test_request().len() == 5);
    assert(commit_request().len() == 6 && meet_status_request().len() == 5);
}

/// An event-record frame clears its event just where its distance, gender and
/// stroke bytes are all zero, whatever its other bytes are.
pub proof fn law_blank_record_is_a_clear(b: Seq<u8>)
    requires
        has_opcode(b, 18, 0x49, 0x75),
    ensures
        request_of(b) matches RequestView::LoadEventRecord { is_clear, .. } && is_clear == (b[7] == 0
            && b[8] == 0 && b[9] == 0 && b[10] == 0),
{
    assert(identify_request().len() == 5 && comm_test_request().len() == 5);
    assert(commit_request().len() == 6 && meet_status_request().len() == 5);
}

proof fn lemma_frame_block(race: RaceView, year: u16, i: int)
    requires
        0 <= i < 8,
    ensures
        ({
            let f = event_frame(race, year);
            let size = 21 + 4 * race.splits_count as int;
            let block = lane_block(race.lanes[i], race.splits_count as nat);
            &&& f.len() == 51 + 8 * size
            &&& block.len() == size
            &&& 0 <= i * size <= 7 * size
            &&& forall|j: int| 0 <= j < size ==> #[trigger] f[49 + i * size + j] == block[j]
        }),
{
    let f = event_frame(race, year);
    let n = race.splits_count as nat;
    let st = stride(n) as int;
    let block = lane_block(race.lanes[i], n);
    let blocks = lane_blocks(race.lanes, n, WIRE_LANES as nat);
    lemma_lane_blocks(race.lanes, n, WIRE_LANES as nat, i);
    lemma_lane_block_len(race.lanes[i], n);
    assert(event_header(race, year).len() == 49);
    assert(0 <= i * st <= 7 * st) by (nonlinear_arith)
        requires
            0 <= i <= 7,
            st >= 0,
    ;
    assert forall|j: int| 0 <= j < st implies #[trigger] f[49 + i * st + j] == block[j] by {
        assert(blocks.subrange(i * st, i * st + st)[j] == blocks[i * st + j]);
        assert(f[49 + (i * st + j)] == blocks[i * st + j]);
    }
}

/// In an event-result frame every byte of the block of a lane without a result
/// is zero.
pub proof fn law_lane_without_a_result_is_blank(race: RaceView, year: u16, i: int, j: int)
    requires
        0 <= i < 8 <= race.lanes.len(),
        race.lanes[i] is None,
        0 <= j < 21 + 4 * race.splits_count,
    ensures
        event_frame(race, year)[49 + i * (21 + 4 * race.splits_count as int) + j] == 0,
{
    lemma_frame_block(race, year, i);
}

/// In an event-result frame the block of a lane with a result begins with its
/// place, or 0xFF for a disqualified lane and for no other, as no race has that
/// many places.
pub proof fn law_lane_block_begins_with_the_place(race: RaceView, year: u16, i: int)
    requires
        0 <= i < 8 <= race.lanes.len(),
        race.lanes[i] is Some ==> race.lanes[i]->0.place < 0xFF,
    ensures
        ({
            let first = event_frame(race, year)[49 + i * (21 + 4 * race.splits_count as int)];
            &&& first == 0xFF <==> race.lanes[i] is Some && race.lanes[i]->0.lane.dq
            &&& race.lanes[i] is Some && !race.lanes[i]->0.lane.dq ==> first
                == race.lanes[i]->0.place
        }),
{
    lemma_frame_block(race, year, i);
    let size = 21 + 4 * race.splits_count as int;
    assert(event_frame(race, year)[49 + i * size + 0] == lane_block(
        race.lanes[i],
        race.splits_count as nat,
    )[0]);
}

/// In an event-result frame the block of a lane with a result has, behind its
/// first byte and low byte first, the touches before the lane's last one in the
/// split slots, and zero where it made no more.
pub proof fn law_lane_block_holds_the_splits(race: RaceView, year: u16, i: int, t: int)
    requires
        0 <= i < 8 <= race.lanes.len(),
        race.lanes[i] is Some,
        0 <= t < race.splits_count,
    ensures
        ({
            let f = event_frame(race, year);
            let n = race.splits_count as int;
            let at = 49 + i * (21 + 4 * n) + 1;
            let s = at + 4 * t;
            let touches = race.lanes[i]->0.lane.touches;
            &&& f[s] + 256 * f[s + 1] + 65_536 * f[s + 2] + 16_777_216 * f[s + 3] == (if t + 1
                < touches.len() {
                touches[t] as int
            } else {
                0
            })
        }),
{
    let row = race.lanes[i]->0;
    let n = race.splits_count as nat;
    let size = 21 + 4 * n as int;
    let base = 49 + i * size;
    let f = event_frame(race, year);
    let block = lane_block(race.lanes[i], n);
    let sp = split_bytes(row.lane.splits(), n);
    lemma_frame_block(race, year, i);
    lemma_split_bytes(row.lane.splits(), n);
    assert(le32_at(sp, 4 * t) == (if t < row.lane.splits().len() {
        row.lane.splits()[t] as int
    } else {
        0
    }));
    assert forall|k: int| 0 <= k < 4 implies f[base + 1 + 4 * t + k] == #[trigger] sp[4 * t
        + k] by {
        assert(f[base + (1 + 4 * t + k)] == block[1 + 4 * t + k]);
        assert(block[1 + 4 * t + k] == sp[4 * t + k]);
    }
    assert(f[base + 1 + 4 * t + 0] == sp[4 * t + 0]);
    assert(f[base + 1 + 4 * t + 1] == sp[4 * t + 1]);
    assert(f[base + 1 + 4 * t + 2] == sp[4 * t + 2]);
    assert(f[base + 1 + 4 * t + 3] == sp[4 * t + 3]);
}

/// In an event-result frame the block of a lane with a result ends, behind its
/// split slots, with its last touch (0 for a lane that made none), low byte
/// first, the same and 3 ms, eight zero bytes, and its last touch less 2 ms, but
/// at least 1 ms for a lane that touched.
pub proof fn law_lane_block_ends_with_the_finish(race: RaceView, year: u16, i: int, j: int)
    requires
        0 <= i < 8 <= race.lanes.len(),
        race.lanes[i] is Some,
        0 <= j < 8,
    ensures
        ({
            let f = event_frame(race, year);
            let n = race.splits_count as int;
            let at = 49 + i * (21 + 4 * n) + 1 + 4 * n;
            let touches = race.lanes[i]->0.lane.touches;
            let finish = if touches.len() > 0 {
                touches[touches.len() - 1] as int
            } else {
                0
            };
            &&& f[at] + 256 * f[at + 1] + 65_536 * f[at + 2] + 16_777_216 * f[at + 3] == finish
            &&& f[at + 4] + 256 * f[at + 5] + 65_536 * f[at + 6] + 16_777_216 * f[at + 7] == (
            if finish + 3 <= 0xFFFF_FFFF {
                finish + 3
            } else {
                0xFFFF_FFFF
            })
            &&& f[at + 8 + j] == 0
            &&& f[at + 16] + 256 * f[at + 17] + 65_536 * f[at + 18] + 16_777_216 * f[at + 19] == (
            if finish == 0 {
                0
            } else if finish <= 3 {
                1
            } else {
                finish - 2
            })
        }),
{
    let row = race.lanes[i]->0;
    let n = race.splits_count as nat;
    let size = 21 + 4 * n as int;
    let base = 49 + i * size;
    let at = base + 1 + 4 * n;
    let f = event_frame(race, year);
    let block = lane_block(race.lanes[i], n);
    lemma_frame_block(race, year, i);
    lemma_split_bytes(row.lane.splits(), n);
    let v = row.lane.finish();
    lemma_le32(v);
    lemma_le32(backup1(v));
    lemma_le32(backup2(v));
    let p = 1 + 4 * n as int;
    assert forall|k: int| 0 <= k < 20 implies #[trigger] f[at + k] == block[p + k] by {
        assert(f[base + (p + k)] == block[p + k]);
    }
    assert(block[p] == le32(v)[0] && block[p + 1] == le32(v)[1] && block[p + 2] == le32(v)[2]
        && block[p + 3] == le32(v)[3]);
    let w = backup1(v);
    assert(block[p + 4] == le32(w)[0] && block[p + 5] == le32(w)[1] && block[p + 6] == le32(w)[2]
        && block[p + 7] == le32(w)[3]);
    let u = backup2(v);
    assert(block[p + 16] == le32(u)[0] && block[p + 17] == le32(u)[1] && block[p + 18] == le32(
        u,
    )[2] && block[p + 19] == le32(u)[3]);
    assert(block[p + (8 + j)] == 0);
    assert(f[at + 0] == block[p + 0] && f[at + 1] == block[p + 1] && f[at + 2] == block[p + 2]
        && f[at + 3] == block[p + 3]);
    assert(f[at + 4] == block[p + 4] && f[at + 5] == block[p + 5] && f[at + 6] == block[p + 6]
        && f[at + 7] == block[p + 7]);
    assert(f[at + (8 + j)] == block[p + (8 + j)]);
    assert(f[at + 16] == block[p + 16] && f[at + 17] == block[p + 17] && f[at + 18] == block[p + 18]
        && f[at + 19] == block[p + 19]);
}

/// An event-result frame begins with its class and sub-address, the low byte of
/// the event, the heat and the race number, and has the lane count of 8 at byte
/// 16 where there are split slots. The year stands at byte 40, the event at 44,
/// the heat at 46 and the low byte of the race number at 48, all numbers with
/// the low byte first. The other header bytes are zero, and the frame ends in
/// two trailer bytes behind eight lane blocks.
pub proof fn law_event_frame_layout(race: RaceView, year: u16, j: int)
    ensures
        ({
            let f = event_frame(race, year);
            &&& f.len() == 49 + 8 * (21 + 4 * race.splits_count) + 2
            &&& f[0] == 5 && f[1] == 1
            &&& f[2] == race.event % 256
            &&& f[3] == race.heat
            &&& f[4] == 0 && f[5] == 0
            &&& f[6] + 256 * f[7] == race.id
            &&& 8 <= j < 16 ==> f[j] == 0
            &&& f[16] == (if race.splits_count > 0 {
                8
            } else {
                0int
            })
            &&& 17 <= j < 40 ==> f[j] == 0
            &&& f[40] + 256 * f[41] == year
            &&& f[42] == 0 && f[43] == 0
            &&& f[44] + 256 * f[45] == race.event
            &&& f[46] == race.heat && f[47] == 0
            &&& f[48] == race.id % 256
            &&& f[f.len() - 2] == 0 && f[f.len() - 1] == 0xFA
        }),
{
    let f = event_frame(race, year);
    let h = event_header(race, year);
    lemma_frame_block(race, year, 0);
    assert(h.len() == 49);
    assert forall|i: int| 0 <= i < 49 implies #[trigger] f[i] == h[i] by {}
    assert(h[0] == 5 && h[1] == 1 && h[2] == lo(race.event as int) && h[3] == race.heat);
    assert(h[4] == 0 && h[5] == 0);
    assert(h[6] == lo(race.id as int) && h[7] == hi(race.id as int));
    assert(forall|i: int| 8 <= i < 16 ==> h[i] == 0);
    assert(forall|i: int| 17 <= i < 40 ==> h[i] == 0);
    assert(h[40] == lo(year as int) && h[41] == hi(year as int) && h[42] == 0 && h[43] == 0);
    assert(h[44] == lo(race.event as int) && h[45] == hi(race.event as int));
    assert(h[46] == race.heat && h[47] == 0 && h[48] == lo(race.id as int));
    assert(f[0] == h[0] && f[1] == h[1] && f[2] == h[2] && f[3] == h[3] && f[4] == h[4] && f[5]
        == h[5]);
    assert(f[42] == h[42] && f[43] == h[43] && f[48] == h[48] && f[47] == h[47]);
}

/// One more byte takes its value off the checksum, which is 255 for no bytes;
/// all modulo 256.
pub proof fn law_checksum_counts_down(b: Seq<u8>, x: u8)
    ensures
        checksum(Seq::empty()) == 255,
        checksum(b.push(x)) == (checksum(b) + 256 - x) % 256,
{
    assert(b.push(x).drop_last() =~= b);
}

/// A text field ends at its first NUL. Before that, a byte from the blank to the
/// tilde is a character of the text, and any other byte is left out.
pub proof fn law_field_text(b: Seq<u8>, x: u8, rest: Seq<u8>)
    requires
        forall|i: int| 0 <= i < b.len() ==> #[trigger] b[i] != 0,
        x != 0,
    ensures
        field_text(Seq::empty()).len() == 0,
        field_text(b + seq![0u8] + rest) == field_text(b),
        32 <= x <= 126 ==> field_text(b.push(x)) == field_text(b).push(x as char),
        !(32 <= x <= 126) ==> field_text(b.push(x)) == field_text(b),
{
    let ended = b + seq![0u8] + rest;
    lemma_nul_pos(b, b.len());
    assert(b.take(b.len() as int) =~= b);
    lemma_nul_pos(ended, b.len());
    assert(ended.take(b.len() as int) =~= b);
    let more = b.push(x);
    lemma_nul_pos(more, more.len());
    assert(more.take(more.len() as int) =~= more);
    assert(more.drop_last() =~= b);
    assert(Seq::<u8>::empty().take(0) =~= Seq::<u8>::empty());
}

/// Whether a frame holds the given bytes.
pub open spec fn holds(b: Seq<u8>, a: Seq<int>) -> bool {
    b.len() == a.len() && forall|i: int| 0 <= i < a.len() ==> #[trigger] b[i] == a[i]
}

/// The four requests without arguments are just these bytes.
pub proof fn law_fixed_requests(b: Seq<u8>)
    ensures
        request_of(b) is Identify <==> holds(b, seq![0x05, 0x00, 0x57, 0xA3, 0xFF]),
        request_of(b) is CommTest <==> holds(b, seq![0x05, 0x00, 0x57, 0x8D, 0xFF]),
        request_of(b) is Commit <==> holds(b, seq![0x06, 0x00, 0x52, 0x72, 0x35, 0xFF]),
        request_of(b) is MeetStatus <==> holds(b, seq![0x05, 0x00, 0x54, 0xA6, 0xFF]),
{
    let i = seq![0x05int, 0x00, 0x57, 0xA3, 0xFF];
    let t = seq![0x05int, 0x00, 0x57, 0x8D, 0xFF];
    let c = seq![0x06int, 0x00, 0x52, 0x72, 0x35, 0xFF];
    let m = seq![0x05int, 0x00, 0x54, 0xA6, 0xFF];
    lemma_holds(b, i, identify_request());
    lemma_holds(b, t, comm_test_request());
    lemma_holds(b, c, commit_request());
    lemma_holds(b, m, meet_status_request());
    assert(identify_request()[3] == 0xA3 && comm_test_request()[3] == 0x8D);
    assert(meet_status_request()[2] == 0x54 && identify_request()[2] == 0x57);
    assert(comm_test_request()[2] == 0x57 && commit_request().len() == 6);
    assert(!has_opcode(identify_request(), 7, 0x52, 0x73));
}

proof fn lemma_holds(b: Seq<u8>, a: Seq<int>, c: Seq<u8>)
    requires
        a.len() == c.len(),
        forall|i: int| 0 <= i < a.len() ==> #[trigger] a[i] == c[i],
    ensures
        holds(b, a) <==> b == c,
{
    if holds(b, a) {
        assert forall|i: int| 0 <= i < a.len() implies b[i] == c[i] by {
            assert(b[i] == a[i]);
        }
        assert(b =~= c);
    }
    if b == c {
        assert forall|i: int| 0 <= i < a.len() implies #[trigger] b[i] == a[i] by {
            assert(a[i] == c[i]);
        }
    }
}

/// The frames that name a slot, and those of a meet download, by their bytes:
/// length, zero and opcode, then the slot, or category and index, and a text or
/// a record behind them.
pub proof fn law_slot_and_download_requests(b: Seq<u8>)
    ensures
        b.len() == 7 && b[0] == 7 && b[1] == 0 && b[2] == 0x52 && b[3] == 0x73 && b[6] == 0xFF
            ==> request_of(b) == RequestView::Slot(b[4]),
        b.len() == 7 && b[0] == 7 && b[1] == 0 && b[2] == 0x49 && b[3] == 0x72 ==> request_of(b)
            == (RequestView::FinalizeSlot { slot: b[4] }),
        b.len() == 28 && b[0] == 28 && b[1] == 0 && b[2] == 0x49 && b[3] == 0x73 ==> request_of(b)
            == (RequestView::LoadMeetName { slot: b[4], name: field_text(b.subrange(5, 26)) }),
        b.len() == 24 && b[0] == 24 && b[1] == 0 && b[2] == 0x49 && b[3] == 0x74 ==> request_of(b)
            == (RequestView::LoadCategoryLabel {
            category: b[4],
            idx: b[5],
            label: field_text(b.subrange(6, 22)),
        }),
        b.len() == 18 && b[0] == 18 && b[1] == 0 && b[2] == 0x49 && b[3] == 0x75 ==> (request_of(
            b,
        ) matches RequestView::LoadEventRecord {
            slot,
            event_num,
            distance,
            gender_idx,
            stroke_idx,
            is_relay,
            is_clear,
        } && slot == b[4] && event_num == b[5] + 256 * b[6] && distance == b[7] + 256 * b[8]
            && gender_idx == (if b[9] >= 1 {
            b[9] - 1
        } else {
            0
        }) && stroke_idx == (if b[10] >= 10 {
            b[10] - 10
        } else {
            0
        }) && is_relay == (b[11] == 0x10) && is_clear == (b[7] == 0 && b[8] == 0 && b[9] == 0
            && b[10] == 0)),
{
    assert(identify_request().len() == 5 && comm_test_request().len() == 5);
    assert(commit_request().len() == 6 && meet_status_request().len() == 5);
}

/// A race query is its length, an address, SSBI, a letter, and a trailer at its
/// end. The letter E asks for the latest race, L for the one before, N for the
/// next one, each with a heat and an event, and in the short form R with a race
/// number. In the long form the event has two bytes, low byte first, and of the
/// heat the low byte counts.
pub proof fn law_race_queries(b: Seq<u8>)
    requires
        b.len() >= 11,
        b[2] == 'S' as u8 && b[3] == 'S' as u8 && b[4] == 'B' as u8 && b[5] == 'I' as u8,
    ensures
        ({
            let short = b.len() == 11 && b[0] == 11 && b[10] == 0xFE;
            let long = b.len() == 13 && b[0] == 13 && b[12] == 0xFD;
            let event = b[9] + 256 * b[10];
            &&& short && b[6] == 'E' as u8 ==> request_of(b) == (RequestView::Fetch {
                verb: Verb::Latest,
                heat: b[7],
                event: b[8] as u16,
            })
            &&& short && b[6] == 'L' as u8 ==> request_of(b) == (RequestView::Fetch {
                verb: Verb::Previous,
                heat: b[7],
                event: b[8] as u16,
            })
            &&& short && b[6] == 'N' as u8 ==> request_of(b) == (RequestView::Fetch {
                verb: Verb::Next,
                heat: b[7],
                event: b[8] as u16,
            })
            &&& short && b[6] == 'R' as u8 ==> request_of(b) == (RequestView::FetchByRace {
                race: b[7] as u16,
            })
            &&& long && b[6] == 'E' as u8 ==> request_of(b) == (RequestView::Fetch {
                verb: Verb::Latest,
                heat: b[7],
                event: event as u16,
            })
            &&& long && b[6] == 'L' as u8 ==> request_of(b) == (RequestView::Fetch {
                verb: Verb::Previous,
                heat: b[7],
                event: event as u16,
            })
            &&& long && b[6] == 'N' as u8 ==> request_of(b) == (RequestView::Fetch {
                verb: Verb::Next,
                heat: b[7],
                event: event as u16,
            })
            &&& long && b[6] == 'R' as u8 ==> request_of(b) == RequestView::Unknown(b)
            &&& (short || long) && b[6] != 'E' as u8 && b[6] != 'L' as u8 && b[6] != 'N' as u8
                && b[6] != 'R' as u8 ==> request_of(b) == RequestView::Unknown(b)
            &&& !short && !long ==> request_of(b) == RequestView::Unknown(b)
        }),
{
    assert(identify_request().len() == 5 && comm_test_request().len() == 5);
    assert(commit_request().len() == 6 && meet_status_request().len() == 5);
    assert('S' as u8 == 0x53 && 'B' as u8 == 0x42 && 'I' as u8 == 0x49 && 'E' as u8 == 0x45 && 'L'
        as u8 == 0x4C && 'N' as u8 == 0x4E && 'R' as u8 == 0x52);
}

/// A frame that does not begin with its own length is not understood, and is
/// kept whole.
pub proof fn law_wrong_length_is_not_understood(b: Seq<u8>)
    requires
        b.len() == 0 || b[0] != b.len(),
    ensures
        request_of(b) == RequestView::Unknown(b),
{
    assert(identify_request().len() == 5 && identify_request()[0] == 5);
    assert(comm_test_request().len() == 5 && comm_test_request()[0] == 5);
    assert(commit_request().len() == 6 && commit_request()[0] == 6);
    assert(meet_status_request().len() == 5 && meet_status_request()[0] == 5);
}

/// What a frame that is not understood is kept as is the frame itself.
pub proof fn law_unknown_frame_is_kept(b: Seq<u8>)
    ensures
        request_of(b) matches RequestView::Unknown(bytes) ==> bytes == b,
{
}

/// The slot reply has its length, a zero, the slot number, the first 20 bytes of
/// the name with NULs behind them, two zero flags, and a last byte that makes
/// the sum of all bytes 255, modulo 256.
pub proof fn law_slot_reply(slot: u8, name: Seq<char>, i: int)
    ensures
        ({
            let f = slot_frame(slot, name);
            let bytes = vstd::utf8::encode_utf8(name);
            &&& f.len() == 26
            &&& f[0] == 26 && f[1] == 0 && f[2] == slot
            &&& 0 <= i < 20 ==> f[3 + i] == (if i < bytes.len() {
                bytes[i] as int
            } else {
                0
            })
            &&& f[23] == 0 && f[24] == 0
            &&& f[25] == checksum(f.take(25))
        }),
{
    let f = slot_frame(slot, name);
    let body = slot_body(slot, name);
    assert(body.len() == 25);
    assert(f.take(25) =~= body);
    assert(f[0] == body[0] && f[1] == body[1] && f[2] == body[2]);
    assert(f[23] == body[23] && f[24] == body[24]);
    if 0 <= i < 20 {
        assert(f[3 + i] == body[3 + i]);
    }
}

/// The meet-status frame has the clock and the date at bytes 8 to 14, the day of
/// the week counted from 1 for Sunday, the year at byte 40, low byte first, its
/// length at its beginning and a trailer at its end. The other bytes are zero.
pub proof fn law_meet_status_layout(t: LocalTime, j: int)
    requires
        t.wf(),
    ensures
        ({
            let f = status_frame(t);
            &&& f.len() == 51
            &&& f[0] == 51
            &&& 1 <= j < 8 ==> f[j] == 0
            &&& f[8] == t.second && f[9] == t.minute && f[10] == t.hour
            &&& f[11] == t.days_from_sunday + 1
            &&& f[12] == t.month && f[13] == t.day
            &&& 2000 <= t.year <= 2255 ==> f[14] == t.year - 2000
            &&& !(2000 <= t.year <= 2255) ==> f[14] == 0
            &&& 15 <= j < 40 ==> f[j] == 0
            &&& 0 <= t.year <= 65_535 ==> f[40] + 256 * f[41] == t.year
            &&& (f[40] + 256 * f[41] - t.year) % 65_536 == 0
            &&& 42 <= j < 50 ==> f[j] == 0
            &&& f[50] == 0xFB
        }),
{
}

/// Of the frame that a byte begins, as many bytes follow it as its length says;
/// a zero stands alone.
pub proof fn law_rest_of_a_frame(first: u8, stream: Seq<u8>)
    ensures
        first > 0 ==> rest_len(first) == first - 1,
        first == 0 ==> rest_len(first) == 0,
        frames(seq![0u8] + stream) == seq![seq![0u8]] + frames(stream),
        frames(Seq::<u8>::empty()).len() == 0,
{
    let all = seq![0u8] + stream;
    assert(all[0] == 0);
    assert(all.take(1) =~= seq![0u8]);
    assert(all.skip(1) =~= stream);
}

/// A frame that the stream ends in the middle of is not read.
pub proof fn law_incomplete_frame_waits(stream: Seq<u8>)
    requires
        stream.len() > 0,
        stream.len() < stream[0],
    ensures
        frames(stream).len() == 0,
{
}

/// A byte in hexadecimal is two digits, the higher one first, from 0 to 9 and A
/// to F; several bytes have a blank between two of them.
pub proof fn law_hexadecimal(b: Seq<u8>, x: u8)
    ensures
        hex_text(Seq::empty()).len() == 0,
        hex_text(seq![x]).len() == 2,
        hex_value(hex_text(seq![x])[0]) * 16 + hex_value(hex_text(seq![x])[1]) == x,
        b.len() > 0 ==> hex_text(b.push(x)) == hex_text(b) + seq![' '] + hex_text(seq![x]),
{
    let one = seq![x];
    assert(one.drop_last() =~= Seq::<u8>::empty());
    if b.len() > 0 {
        assert(b.push(x).drop_last() =~= b);
        assert(hex_text(b.push(x)) =~= hex_text(b) + seq![' '] + hex_text(one));
    }
}

/// The value of a hexadecimal digit; -1 for another character.
pub open spec fn hex_value(c: char) -> int {
    if '0' <= c && c <= '9' {
        c as int - 48
    } else if 'A' <= c && c <= 'F' {
        c as int - 55
    } else {
        -1
    }
}

/// What a request holds is what its fields hold.
pub proof fn law_request_view(r: Request)
    ensures
        match r {
            Request::Identify => r@ is Identify,
            Request::Commit => r@ is Commit,
            Request::CommTest => r@ is CommTest,
            Request::Slot(n) => r@ == RequestView::Slot(n),
            Request::MeetStatus => r@ is MeetStatus,
            Request::Fetch { verb, heat, event } => r@ == (RequestView::Fetch { verb, heat, event }),
            Request::FetchByRace { race } => r@ == (RequestView::FetchByRace { race }),
            Request::LoadMeetName { slot, name } => r@ == (RequestView::LoadMeetName {
                slot,
                name: name@,
            }),
            Request::LoadCategoryLabel { category, idx, label } => r@ == (
            RequestView::LoadCategoryLabel { category, idx, label: label@ }),
            Request::LoadEventRecord {
                slot,
                event_num,
                distance,
                gender_idx,
                stroke_idx,
                is_relay,
                is_clear,
            } => r@ == (RequestView::LoadEventRecord {
                slot,
                event_num,
                distance,
                gender_idx,
                stroke_idx,
                is_relay,
                is_clear,
            }),
            Request::FinalizeSlot { slot } => r@ == (RequestView::FinalizeSlot { slot }),
            Request::Unknown(bytes) => r@ == RequestView::Unknown(bytes@),
        },
{
}

} // verus!
