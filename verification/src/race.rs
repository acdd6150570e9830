//! Lane times, running races and finalized results.

use vstd::prelude::*;

verus! {

/// Lanes tracked internally. The wire carries the first eight of them.
pub const MAX_LANES: usize = 10;

/// What one lane recorded in a race.
#[derive(Debug)]
pub struct LaneTime {
    /// Cumulative touchpad times in milliseconds, in touch order. The last
    /// one is the lane's finish, the earlier ones are splits.
    pub touches_ms: Vec<u32>,
    /// Whether the lane was disqualified.
    pub dq: bool,
    /// Time of the final expected touch; once set, the lane ignores touches.
    pub finished_at: Option<u32>,
}

/// What a [`LaneTime`] holds.
#[verifier::ext_equal]
pub struct LaneView {
    pub touches: Seq<u32>,
    pub dq: bool,
    pub finished_at: Option<u32>,
}

impl View for LaneTime {
    type V = LaneView;

    open spec fn view(&self) -> LaneView {
        LaneView { touches: self.touches_ms@, dq: self.dq, finished_at: self.finished_at }
    }
}

impl LaneView {
    /// A lane nothing has been recorded for.
    pub open spec fn fresh() -> LaneView {
        LaneView { touches: Seq::empty(), dq: false, finished_at: None }
    }

    /// Finish time: the last touch, 0 without one.
    pub open spec fn finish(self) -> u32 {
        if self.touches.len() == 0 {
            0
        } else {
            self.touches.last()
        }
    }

    /// The touches before the last one.
    pub open spec fn splits(self) -> Seq<u32> {
        if self.touches.len() == 0 {
            Seq::empty()
        } else {
            self.touches.drop_last()
        }
    }

    /// A lane that gets a place: it touched and was not disqualified.
    pub open spec fn is_finisher(self) -> bool {
        self.touches.len() > 0 && !self.dq
    }

    /// The time a touch is recorded with: at least 1 ms, and later than the
    /// touch before it.
    pub open spec fn touch_time(self, elapsed: u32) -> u32 {
        let cum: u32 = if elapsed == 0 {
            1
        } else {
            elapsed
        };
        if self.touches.len() > 0 && cum <= self.touches.last() {
            if self.touches.last() == u32::MAX {
                u32::MAX
            } else {
                (self.touches.last() + 1) as u32
            }
        } else {
            cum
        }
    }

    /// Number of touches as a 16-bit count, 0 for one that does not fit.
    pub open spec fn touch_count(self) -> nat {
        if self.touches.len() <= u16::MAX {
            self.touches.len()
        } else {
            0
        }
    }

    /// The lane after one more touch at `elapsed`, in an event of `total`
    /// touches (0 if the event is not in the lineup): a lane that is final
    /// ignores the touch; the touch that reaches the total makes it final.
    pub open spec fn touched(self, elapsed: u32, total: nat) -> LaneView {
        if self.finished_at is Some {
            self
        } else {
            let cum = self.touch_time(elapsed);
            let next = LaneView { touches: self.touches.push(cum), ..self };
            if total > 0 && next.touch_count() >= total {
                LaneView { finished_at: Some(cum), ..next }
            } else {
                next
            }
        }
    }
}

impl LaneTime {
    pub fn new() -> (r: LaneTime)
        ensures
            r@ == LaneView::fresh(),
    {
        LaneTime { touches_ms: Vec::new(), dq: false, finished_at: None }
    }

    pub fn finish_ms(&self) -> (r: u32)
        ensures
            r == self@.finish(),
    {
        let n: usize = self.touches_ms.len();
        if n == 0 {
            0
        } else {
            self.touches_ms[n - 1]
        }
    }

    /// All cumulative splits before the final touch. Empty if 0 or 1 touches
    /// were recorded.
    pub fn split_prefix(&self) -> (r: &[u32])
        ensures
            r@ == self@.splits(),
    {
        let n: usize = self.touches_ms.len();
        let end: usize = if n <= 1 {
            0
        } else {
            n - 1
        };
        let r: &[u32] = vstd::slice::slice_subrange(self.touches_ms.as_slice(), 0, end);
        assert(r@ =~= self@.splits());
        r
    }

    /// Number of touches as a 16-bit count, 0 for one that does not fit.
    pub fn touches_u16(&self) -> (r: u16)
        ensures
            r == self@.touch_count(),
    {
        let n: usize = self.touches_ms.len();
        if n <= 65_535 {
            n as u16
        } else {
            0
        }
    }

    /// Records a touch at `elapsed` in an event of `total` touches and
    /// returns the time it was recorded with; `None` if the lane is final and
    /// the touch was ignored.
    pub fn touch(&mut self, elapsed: u32, total: u16) -> (r: Option<u32>)
        ensures
            final(self)@ == old(self)@.touched(elapsed, total as nat),
            r == (if old(self)@.finished_at is Some {
                None::<u32>
            } else {
                Some(old(self)@.touch_time(elapsed))
            }),
    {
        if self.finished_at.is_some() {
            return None;
        }
        let mut cum: u32 = if elapsed == 0 {
            1
        } else {
            elapsed
        };
        let n: usize = self.touches_ms.len();
        if n > 0 {
            let prev: u32 = self.touches_ms[n - 1];
            if cum <= prev {
                cum = prev.saturating_add(1);
            }
        }
        self.touches_ms.push(cum);
        let k: u16 = self.touches_u16();
        if total > 0 && k >= total {
            self.finished_at = Some(cum);
        }
        Some(cum)
    }

    /// A copy of the lane.
    pub fn copy(&self) -> (r: LaneTime)
        ensures
            r@ == self@,
    {
        let n: usize = self.touches_ms.len();
        let mut touches: Vec<u32> = Vec::new();
        let mut i: usize = 0;
        while i < n
            invariant
                n == self.touches_ms@.len(),
                i <= n,
                touches@ == self.touches_ms@.take(i as int),
            decreases n - i,
        {
            touches.push(self.touches_ms[i]);
            i = i + 1;
            assert(touches@ =~= self.touches_ms@.take(i as int));
        }
        assert(touches@ =~= self.touches_ms@);
        LaneTime { touches_ms: touches, dq: self.dq, finished_at: self.finished_at }
    }
}

/// The views of a list of lanes.
pub open spec fn lane_views(lanes: Seq<LaneTime>) -> Seq<LaneView> {
    Seq::new(lanes.len(), |i: int| lanes[i]@)
}

/// One lane of a finalized race.
#[derive(Debug)]
pub struct LaneResultRow {
    pub lane: LaneTime,
    /// Finishing place from 1, or 0 for a lane without one.
    pub place: u8,
}

/// What a [`LaneResultRow`] holds.
#[verifier::ext_equal]
pub struct RowView {
    pub lane: LaneView,
    pub place: u8,
}

impl View for LaneResultRow {
    type V = RowView;

    open spec fn view(&self) -> RowView {
        RowView { lane: self.lane@, place: self.place }
    }
}

/// What an optional row holds.
pub open spec fn row_view(row: Option<LaneResultRow>) -> Option<RowView> {
    match row {
        Some(r) => Some(r@),
        None => None,
    }
}

/// The views of a list of optional rows.
pub open spec fn row_views(rows: Seq<Option<LaneResultRow>>) -> Seq<Option<RowView>> {
    Seq::new(rows.len(), |i: int| row_view(rows[i]))
}

/// A finalized race.
#[derive(Debug)]
pub struct Race {
    pub event: u16,
    pub heat: u8,
    pub id: u16,
    /// One entry per lane, empty for a lane that recorded nothing.
    pub lanes: Vec<Option<LaneResultRow>>,
    /// Number of split slots in the result frame.
    pub splits_count: u8,
}

/// What a [`Race`] holds.
#[verifier::ext_equal]
pub struct RaceView {
    pub event: u16,
    pub heat: u8,
    pub id: u16,
    pub lanes: Seq<Option<RowView>>,
    pub splits_count: u8,
}

impl View for Race {
    type V = RaceView;

    open spec fn view(&self) -> RaceView {
        RaceView {
            event: self.event,
            heat: self.heat,
            id: self.id,
            lanes: row_views(self.lanes@),
            splits_count: self.splits_count,
        }
    }
}

impl RaceView {
    /// A race has a row slot for every lane and belongs to a numbered event.
    pub open spec fn wf(self) -> bool {
        self.lanes.len() == MAX_LANES && self.event >= 1
    }
}

/// A race that has been started and not yet finalized.
#[derive(Debug)]
pub struct InProgress {
    pub event: u16,
    pub heat: u8,
    pub race_no: u16,
    /// Reading of the monotonic clock at the start, in nanoseconds.
    pub started_ns: u64,
    /// What each lane recorded so far.
    pub lanes: Vec<LaneTime>,
}

/// What an [`InProgress`] holds.
#[verifier::ext_equal]
pub struct InProgressView {
    pub event: u16,
    pub heat: u8,
    pub race_no: u16,
    pub started_ns: u64,
    pub lanes: Seq<LaneView>,
}

impl View for InProgress {
    type V = InProgressView;

    open spec fn view(&self) -> InProgressView {
        InProgressView {
            event: self.event,
            heat: self.heat,
            race_no: self.race_no,
            started_ns: self.started_ns,
            lanes: lane_views(self.lanes@),
        }
    }
}

impl InProgressView {
    /// A running race tracks every lane and belongs to a numbered event.
    pub open spec fn wf(self) -> bool {
        self.lanes.len() == MAX_LANES && self.event >= 1
    }
}

/// Whether lane `j` finished before lane `i`: an earlier finish time, or the
/// same time on a lower lane.
pub open spec fn ahead_of(lanes: Seq<LaneView>, j: int, i: int) -> bool {
    &&& lanes[j].is_finisher()
    &&& lanes[j].finish() < lanes[i].finish() || (lanes[j].finish() == lanes[i].finish() && j < i)
}

/// Number of the first `n` lanes that finished before lane `i`.
pub open spec fn count_ahead(lanes: Seq<LaneView>, i: int, n: nat) -> nat
    decreases n,
{
    if n == 0 {
        0
    } else {
        count_ahead(lanes, i, (n - 1) as nat) + if ahead_of(lanes, n - 1, i) {
            1nat
        } else {
            0nat
        }
    }
}

/// Place of lane `i`: one more than the number of lanes that finished before
/// it, 0 for a lane that does not place.
pub open spec fn place_of(lanes: Seq<LaneView>, i: int) -> nat {
    if lanes[i].is_finisher() {
        1 + count_ahead(lanes, i, lanes.len())
    } else {
        0
    }
}

/// Split slots that a lane asks for: its number of splits, 0 for a number that
/// a byte does not hold.
pub open spec fn split_slots(lane: LaneView) -> nat {
    if lane.splits().len() <= u8::MAX {
        lane.splits().len()
    } else {
        0
    }
}

/// The most split slots that one of the first `n` lanes asks for.
pub open spec fn max_split_slots(lanes: Seq<LaneView>, n: nat) -> nat
    decreases n,
{
    if n == 0 {
        0
    } else {
        let rest = max_split_slots(lanes, (n - 1) as nat);
        let own = split_slots(lanes[n - 1]);
        if own > rest {
            own
        } else {
            rest
        }
    }
}

/// The result row of lane `i`: none for a lane that neither touched nor was
/// disqualified.
pub open spec fn result_row(lanes: Seq<LaneView>, i: int) -> Option<RowView> {
    if lanes[i].touches.len() == 0 && !lanes[i].dq {
        None
    } else {
        Some(RowView { lane: lanes[i], place: place_of(lanes, i) as u8 })
    }
}

/// The result of a running race: every lane's row, with places by ascending
/// finish time.
pub open spec fn race_result(ip: InProgressView) -> RaceView {
    RaceView {
        event: ip.event,
        heat: ip.heat,
        id: ip.race_no,
        lanes: Seq::new(ip.lanes.len(), |i: int| result_row(ip.lanes, i)),
        splits_count: max_split_slots(ip.lanes, ip.lanes.len()) as u8,
    }
}

proof fn lemma_count_ahead_bound(lanes: Seq<LaneView>, i: int, n: nat)
    ensures
        count_ahead(lanes, i, n) <= n,
        0 <= i < n ==> count_ahead(lanes, i, n) < n,
    decreases n,
{
    if n > 0 {
        lemma_count_ahead_bound(lanes, i, (n - 1) as nat);
    }
}

proof fn lemma_max_split_slots_bound(lanes: Seq<LaneView>, n: nat)
    ensures
        max_split_slots(lanes, n) <= u8::MAX,
    decreases n,
{
    if n > 0 {
        lemma_max_split_slots_bound(lanes, (n - 1) as nat);
    }
}

/// Places of a finalized race run from 1 to the number of lanes.
pub proof fn law_place_range(lanes: Seq<LaneView>, i: int)
    requires
        0 <= i < lanes.len(),
        lanes[i].is_finisher(),
    ensures
        1 <= place_of(lanes, i) <= lanes.len(),
{
    lemma_count_ahead_bound(lanes, i, lanes.len());
}

proof fn lemma_count_ahead_order(lanes: Seq<LaneView>, j: int, i: int, n: nat)
    requires
        0 <= i < lanes.len(),
        0 <= j < lanes.len(),
        n <= lanes.len(),
        ahead_of(lanes, j, i),
    ensures
        count_ahead(lanes, j, n) + (if j < n {
            1nat
        } else {
            0nat
        }) <= count_ahead(lanes, i, n),
    decreases n,
{
    if n > 0 {
        lemma_count_ahead_order(lanes, j, i, (n - 1) as nat);
    }
}

/// Places are assigned by ascending finish time, and in lane order between
/// equal times: a lane that finished before another has the smaller place. So
/// no two lanes share a place.
pub proof fn law_places_follow_finish_order(lanes: Seq<LaneView>, j: int, i: int)
    requires
        0 <= i < lanes.len(),
        0 <= j < lanes.len(),
        lanes[i].is_finisher(),
        ahead_of(lanes, j, i),
    ensures
        place_of(lanes, j) < place_of(lanes, i),
{
    lemma_count_ahead_order(lanes, j, i, lanes.len());
}

/// Number of finishers among the first `n` lanes.
pub open spec fn finisher_count(lanes: Seq<LaneView>, n: nat) -> nat
    decreases n,
{
    if n == 0 {
        0
    } else {
        finisher_count(lanes, (n - 1) as nat) + if lanes[n - 1].is_finisher() {
            1nat
        } else {
            0nat
        }
    }
}

proof fn lemma_count_ahead_finishers(lanes: Seq<LaneView>, i: int, n: nat)
    requires
        0 <= i < lanes.len(),
        lanes[i].is_finisher(),
        n <= lanes.len(),
    ensures
        count_ahead(lanes, i, n) + (if i < n {
            1nat
        } else {
            0nat
        }) <= finisher_count(lanes, n),
    decreases n,
{
    if n > 0 {
        lemma_count_ahead_finishers(lanes, i, (n - 1) as nat);
    }
}

/// With `k` finishers, every finisher's place lies between 1 and `k`. Together
/// with the order law the places are exactly 1 to `k`.
pub proof fn law_places_have_no_gap(lanes: Seq<LaneView>, i: int)
    requires
        0 <= i < lanes.len(),
        lanes[i].is_finisher(),
    ensures
        1 <= place_of(lanes, i) <= finisher_count(lanes, lanes.len()),
{
    lemma_count_ahead_finishers(lanes, i, lanes.len());
}

/// The splits count of a race is the largest number of splits of its lanes, as
/// long as no lane has more splits than a byte counts.
pub proof fn law_splits_count_covers_every_lane(lanes: Seq<LaneView>, n: nat, i: int)
    requires
        0 <= i < n <= lanes.len(),
        lanes[i].splits().len() <= u8::MAX,
    ensures
        lanes[i].splits().len() <= max_split_slots(lanes, n),
    decreases n,
{
    if i < n - 1 {
        law_splits_count_covers_every_lane(lanes, (n - 1) as nat, i);
    }
}

/// A lane's touches are recorded in time order: each touch is later than the
/// one before, up to the largest time that is kept.
pub open spec fn touches_ordered(touches: Seq<u32>) -> bool {
    forall|i: int, j: int|
        0 <= i < j < touches.len() ==> #[trigger] touches[i] < #[trigger] touches[j]
            || touches[j] == u32::MAX
}

/// Touching a lane keeps its touches in time order.
pub proof fn law_touch_keeps_order(lane: LaneView, elapsed: u32, total: nat)
    requires
        touches_ordered(lane.touches),
    ensures
        touches_ordered(lane.touched(elapsed, total).touches),
{
    let after = lane.touched(elapsed, total).touches;
    if lane.finished_at is None {
        let cum = lane.touch_time(elapsed);
        assert(after == lane.touches.push(cum));
        assert forall|i: int, j: int| 0 <= i < j < after.len() implies #[trigger] after[i]
            < #[trigger] after[j] || after[j] == u32::MAX by {
            if j == lane.touches.len() {
                let last = lane.touches.len() - 1;
                if i < last {
                    assert(lane.touches[i] < lane.touches[last] || lane.touches[last] == u32::MAX);
                }
            }
        }
    }
}

/// A lane that is final ignores every further touch.
pub proof fn law_final_lane_ignores_touches(lane: LaneView, elapsed: u32, total: nat)
    requires
        lane.finished_at is Some,
    ensures
        lane.touched(elapsed, total) == lane,
{
}

/// A touch makes the lane final exactly when it is the last one that the event
/// expects, as long as the lane has fewer touches than a 16-bit count holds;
/// the time of the touch is then both the finish and the time it went final.
pub proof fn law_last_touch_is_final(lane: LaneView, elapsed: u32, total: nat)
    requires
        lane.finished_at is None,
        total > 0,
        lane.touches.len() < u16::MAX,
    ensures
        lane.touched(elapsed, total).finished_at is Some <==> lane.touches.len() + 1 >= total,
        lane.touched(elapsed, total).finished_at is Some ==> lane.touched(
            elapsed,
            total,
        ).finished_at == Some(lane.touched(elapsed, total).finish()),
{
}

/// Number of lanes that finished before lane `i`.
fn count_ahead_exec(lanes: &Vec<LaneTime>, i: usize) -> (r: u8)
    requires
        lanes@.len() == MAX_LANES,
        i < MAX_LANES,
    ensures
        r == count_ahead(lane_views(lanes@), i as int, MAX_LANES as nat),
        r < MAX_LANES,
{
    let ghost v = lane_views(lanes@);
    let mut n: usize = 0;
    let mut r: u8 = 0;
    let own: u32 = lanes[i].finish_ms();
    while n < MAX_LANES
        invariant
            lanes@.len() == MAX_LANES,
            i < MAX_LANES,
            v == lane_views(lanes@),
            own == v[i as int].finish(),
            n <= MAX_LANES,
            r == count_ahead(v, i as int, n as nat),
            r <= n,
        decreases MAX_LANES - n,
    {
        let l: &LaneTime = &lanes[n];
        let t: u32 = l.finish_ms();
        if l.touches_ms.len() > 0 && !l.dq && (t < own || (t == own && n < i)) {
            r = r + 1;
        }
        n = n + 1;
    }
    proof {
        lemma_count_ahead_bound(v, i as int, MAX_LANES as nat);
    }
    r
}

impl InProgress {
    /// The finalized result: last touch per lane is the finish, earlier touches
    /// are splits, places by ascending finish.
    pub fn result(&self) -> (r: Race)
        requires
            self@.wf(),
        ensures
            r@ == race_result(self@),
            r@.wf(),
    {
        let ghost v = self@.lanes;
        let mut rows: Vec<Option<LaneResultRow>> = Vec::new();
        let mut splits: u8 = 0;
        let mut i: usize = 0;
        while i < MAX_LANES
            invariant
                self@.wf(),
                v == self@.lanes,
                i <= MAX_LANES,
                rows@.len() == i,
                forall|k: int| 0 <= k < i ==> row_view(#[trigger] rows@[k]) == result_row(v, k),
                splits == max_split_slots(v, i as nat),
            decreases MAX_LANES - i,
        {
            let l: &LaneTime = &self.lanes[i];
            let k: usize = l.split_prefix().len();
            let own: u8 = if k <= 255 {
                k as u8
            } else {
                0
            };
            assert(own == split_slots(v[i as int]));
            if own > splits {
                splits = own;
            }
            let touched: bool = l.touches_ms.len() > 0;
            if !touched && !l.dq {
                rows.push(None);
            } else {
                let place: u8 = if touched && !l.dq {
                    1 + count_ahead_exec(&self.lanes, i)
                } else {
                    0
                };
                rows.push(Some(LaneResultRow { lane: l.copy(), place }));
            }
            i = i + 1;
        }
        proof {
            lemma_max_split_slots_bound(v, MAX_LANES as nat);
        }
        let r: Race = Race {
            event: self.event,
            heat: self.heat,
            id: self.race_no,
            lanes: rows,
            splits_count: splits,
        };
        assert(r@.lanes =~= race_result(self@).lanes);
        r
    }
}

/// A lane that is not final keeps its touches and gets one more for a touch at
/// `elapsed`: at just that time, if it is at least 1 ms and later than the
/// lane's last touch, or 1 ms after the last touch otherwise. The touch makes
/// the lane final just where it is the last one of `total`; a lane is not
/// counted beyond 65535 touches.
pub proof fn law_touch_is_recorded_as_timed(lane: LaneView, elapsed: u32, total: nat)
    requires
        lane.finished_at is None,
    ensures
        ({
            let after = lane.touched(elapsed, total);
            let n = lane.touches.len() as int;
            &&& after.touches.len() == n + 1
            &&& forall|i: int| 0 <= i < n ==> #[trigger] after.touches[i] == lane.touches[i]
            &&& after.dq == lane.dq
            &&& elapsed >= 1 && (n == 0 || lane.touches[n - 1] < elapsed) ==> after.touches[n]
                == elapsed
            &&& elapsed == 0 && n == 0 ==> after.touches[n] == 1
            &&& n > 0 && elapsed <= lane.touches[n - 1] < 0xFFFF_FFFF ==> after.touches[n]
                == lane.touches[n - 1] + 1
            &&& n > 0 && lane.touches[n - 1] == 0xFFFF_FFFF ==> after.touches[n] == 0xFFFF_FFFF
            &&& after.finished_at is Some <==> 0 < total <= n + 1 <= 65_535
            &&& after.finished_at matches Some(at) ==> at == after.touches[n]
        }),
{
}

/// The finish of a lane is its last touch, and its splits are all the touches
/// before that; a lane without touches has neither.
pub proof fn law_last_touch_is_the_finish(lane: LaneView)
    ensures
        lane.touches.len() > 0 ==> lane.finish() == lane.touches[lane.touches.len() - 1],
        lane.touches.len() == 0 ==> lane.finish() == 0,
        lane.touches.len() > 0 ==> lane.splits().len() == lane.touches.len() - 1,
        lane.touches.len() == 0 ==> lane.splits().len() == 0,
        forall|i: int| 0 <= i < lane.splits().len() ==> #[trigger] lane.splits()[i]
            == lane.touches[i],
{
}

/// The splits count of a result is the largest number of touches that a lane
/// made before its last one: no lane made more, and where it is not 0 some lane
/// made just as many. A lane with more of them than a byte counts is left out.
pub proof fn law_splits_count_is_attained(ip: InProgressView)
    ensures
        forall|i: int|
            0 <= i < ip.lanes.len() && (#[trigger] ip.lanes[i]).touches.len() <= 256
                ==> ip.lanes[i].touches.len() <= race_result(ip).splits_count + 1,
        race_result(ip).splits_count == 0 || exists|i: int|
            0 <= i < ip.lanes.len() && (#[trigger] ip.lanes[i]).touches.len()
                == race_result(ip).splits_count + 1,
{
    let n = ip.lanes.len();
    lemma_max_split_slots_bound(ip.lanes, n);
    lemma_max_split_slots_attained(ip.lanes, n);
    assert forall|i: int|
        0 <= i < n && (#[trigger] ip.lanes[i]).touches.len() <= 256 implies ip.lanes[i].touches.len()
        <= race_result(ip).splits_count + 1 by {
        law_splits_count_covers_every_lane(ip.lanes, n, i);
    }
}

proof fn lemma_max_split_slots_attained(lanes: Seq<LaneView>, n: nat)
    requires
        n <= lanes.len(),
    ensures
        max_split_slots(lanes, n) == 0 || exists|i: int|
            0 <= i < n && (#[trigger] lanes[i]).touches.len() == max_split_slots(lanes, n) + 1,
    decreases n,
{
    if n > 0 {
        let rest = max_split_slots(lanes, (n - 1) as nat);
        lemma_max_split_slots_attained(lanes, (n - 1) as nat);
        if split_slots(lanes[n - 1]) > rest {
            assert(lanes[n - 1].touches.len() == max_split_slots(lanes, n) + 1);
        } else if rest > 0 {
            let i = choose|i: int| 0 <= i < n - 1 && (#[trigger] lanes[i]).touches.len() == rest + 1;
            assert(lanes[i].touches.len() == max_split_slots(lanes, n) + 1);
        }
    }
}

/// The lanes that are placed before lane `i`: those that touched and were not
/// disqualified, with an earlier last touch, or an equal one on a lower lane.
pub open spec fn lanes_before(lanes: Seq<LaneView>, i: int, n: int) -> Set<int> {
    vstd::set_lib::set_int_range(0, n).filter(
        |j: int|
            lanes[j].touches.len() > 0 && !lanes[j].dq && (lanes[j].touches.last()
                < lanes[i].touches.last() || (lanes[j].touches.last() == lanes[i].touches.last()
                && j < i)),
    )
}

proof fn lemma_lanes_before(lanes: Seq<LaneView>, i: int, n: nat)
    requires
        0 <= i < lanes.len(),
        n <= lanes.len(),
        lanes[i].touches.len() > 0,
    ensures
        lanes_before(lanes, i, n as int).finite(),
        lanes_before(lanes, i, n as int).len() == count_ahead(lanes, i, n),
    decreases n,
{
    let now = lanes_before(lanes, i, n as int);
    vstd::set_lib::lemma_int_range(0, n as int);
    if n == 0 {
        assert(now =~= Set::<int>::empty());
    } else {
        let before = lanes_before(lanes, i, n - 1);
        lemma_lanes_before(lanes, i, (n - 1) as nat);
        if ahead_of(lanes, n - 1, i) {
            assert(now =~= before.insert(n - 1));
        } else {
            assert(now =~= before);
        }
    }
}

/// The result of a race keeps its event, heat and number, and has a row for
/// each lane that touched or was disqualified, with all that the lane recorded.
/// Lanes that touched and were not disqualified are placed by their last touch;
/// of equal times the lower lane is placed first. The other lanes have place 0.
pub proof fn law_result_places_the_lanes(ip: InProgressView, i: int)
    requires
        ip.lanes.len() <= 255,
        0 <= i < ip.lanes.len(),
    ensures
        ({
            let r = race_result(ip);
            &&& r.event == ip.event && r.heat == ip.heat && r.id == ip.race_no
            &&& r.lanes.len() == ip.lanes.len()
            &&& r.lanes[i] is Some <==> ip.lanes[i].touches.len() > 0 || ip.lanes[i].dq
            &&& r.lanes[i] matches Some(row) ==> {
                &&& row.lane.touches == ip.lanes[i].touches
                &&& row.lane.dq == ip.lanes[i].dq
                &&& row.lane.finished_at == ip.lanes[i].finished_at
                &&& row.lane.dq || row.lane.touches.len() == 0 ==> row.place == 0
                &&& !row.lane.dq && row.lane.touches.len() > 0 ==> row.place == 1 + lanes_before(
                    ip.lanes,
                    i,
                    ip.lanes.len() as int,
                ).len()
            }
        }),
{
    if ip.lanes[i].touches.len() > 0 {
        lemma_lanes_before(ip.lanes, i, ip.lanes.len());
        lemma_count_ahead_bound(ip.lanes, i, ip.lanes.len());
    }
}

/// In the result of a race the lane with the earlier last touch has the smaller
/// place, and no two placed lanes have the same one.
pub proof fn law_earlier_finish_has_the_smaller_place(ip: InProgressView, i: int, j: int)
    requires
        ip.lanes.len() <= 255,
        0 <= i < ip.lanes.len(),
        0 <= j < ip.lanes.len(),
        ip.lanes[i].touches.len() > 0 && !ip.lanes[i].dq,
        ip.lanes[j].touches.len() > 0 && !ip.lanes[j].dq,
    ensures
        ip.lanes[j].touches.last() < ip.lanes[i].touches.last() ==> race_result(ip).lanes[j]->0.place
            < race_result(ip).lanes[i]->0.place,
        i != j ==> race_result(ip).lanes[j]->0.place != race_result(ip).lanes[i]->0.place,
        race_result(ip).lanes[i]->0.place >= 1,
{
    lemma_count_ahead_bound(ip.lanes, i, ip.lanes.len());
    lemma_count_ahead_bound(ip.lanes, j, ip.lanes.len());
    if ahead_of(ip.lanes, j, i) {
        law_places_follow_finish_order(ip.lanes, j, i);
    }
    if ahead_of(ip.lanes, i, j) {
        law_places_follow_finish_order(ip.lanes, i, j);
    }
}

/// What a lane, a race in progress and a result hold is what their fields hold.
pub proof fn law_race_views(lane: LaneTime, ip: InProgress, r: Race, i: int)
    ensures
        lane@.touches == lane.touches_ms@ && lane@.dq == lane.dq && lane@.finished_at
            == lane.finished_at,
        ip@.event == ip.event && ip@.heat == ip.heat && ip@.race_no == ip.race_no && ip@.started_ns
            == ip.started_ns,
        ip@.lanes.len() == ip.lanes@.len(),
        0 <= i < ip.lanes@.len() ==> ip@.lanes[i] == ip.lanes@[i]@,
        r@.event == r.event && r@.heat == r.heat && r@.id == r.id && r@.splits_count
            == r.splits_count,
        r@.lanes.len() == r.lanes@.len(),
        0 <= i < r.lanes@.len() ==> match r.lanes@[i] {
            Some(row) => r@.lanes[i] matches Some(v) && v.lane == row.lane@ && v.place == row.place,
            None => r@.lanes[i] is None,
        },
{
}

} // verus!
