//! What a client's frame does to the state, and the reply to it.

use vstd::prelude::*;
use vstd::string::*;

use crate::clock;
use crate::output;
use crate::output::{Effect, EffectView};
use crate::protocol;
use crate::protocol::{Request, RequestView, Verb};
use crate::race;
use crate::race::{Race, RaceView};
use crate::running;
use crate::state;
use crate::state::{LoadedEvent, LoadingMeet, LoadingView, State, StateView, NUM_SLOTS};
use crate::text;

verus! {

/// A label table with `label` at index `idx`: the table grows by empty labels
/// as far as needed.
pub open spec fn labelled(table: Seq<Seq<char>>, idx: u8, label: Seq<char>) -> Seq<Seq<char>> {
    Seq::new(
        if table.len() <= idx {
            idx as nat + 1
        } else {
            table.len()
        },
        |i: int|
            if i == idx {
                label
            } else if i < table.len() {
                table[i]
            } else {
                Seq::empty()
            },
    )
}

fn set_label(table: &mut Vec<String>, idx: u8, label: String)
    ensures
        text::texts(final(table)@) == labelled(text::texts(old(table)@), idx, label@),
{
    let ghost before = text::texts(table@);
    let at: usize = idx as usize;
    while table.len() <= at
        invariant
            at == idx,
            table@.len() >= before.len(),
            before.len() > at ==> table@.len() == before.len(),
            table@.len() > before.len() ==> table@.len() <= at + 1,
            forall|i: int|
                0 <= i < table@.len() ==> #[trigger] table@[i]@ == (if i < before.len() {
                    before[i]
                } else {
                    Seq::empty()
                }),
        decreases at + 1 - table@.len(),
    {
        table.push(String::new());
    }
    table.set(at, label);
    assert(text::texts(table@) =~= labelled(before, idx, label@));
}

impl LoadingView {
    /// The download with one category label written; an unknown category
    /// changes nothing.
    pub open spec fn with_label(self, category: u8, idx: u8, label: Seq<char>) -> LoadingView {
        if category == 0x00 {
            LoadingView { genders: labelled(self.genders, idx, label), ..self }
        } else if category == 0x01 {
            LoadingView { ages: labelled(self.ages, idx, label), ..self }
        } else if category == 0x02 {
            LoadingView { strokes: labelled(self.strokes, idx, label), ..self }
        } else if category == 0x03 {
            LoadingView { rounds: labelled(self.rounds, idx, label), ..self }
        } else {
            self
        }
    }
}

impl StateView {
    /// The download in flight, or a new one for `slot`.
    pub open spec fn download(self, slot: u8) -> LoadingView {
        match self.loading {
            Some(l) => l,
            None => LoadingView::begun(slot, Seq::empty()),
        }
    }

    /// The name of slot `n`, empty outside the slots.
    pub open spec fn slot_name(self, n: u8) -> Seq<char> {
        if 1 <= n <= NUM_SLOTS {
            self.slots[n - 1].name
        } else {
            Seq::empty()
        }
    }

    /// The state after a request.
    pub open spec fn served(self, req: RequestView) -> StateView {
        match req {
            RequestView::Fetch { verb, heat, event } => match verb {
                Verb::Latest => self.latest((event, heat)).0,
                Verb::Previous => self.previous((event, heat)).0,
                Verb::Next => self.next((event, heat)).0,
                Verb::ByRace => self,
            },
            RequestView::LoadMeetName { slot, name } => StateView {
                loading: Some(LoadingView::begun(slot, name)),
                ..self
            },
            RequestView::LoadCategoryLabel { category, idx, label } => StateView {
                loading: Some(self.download(0).with_label(category, idx, label)),
                ..self
            },
            RequestView::LoadEventRecord {
                slot,
                event_num,
                distance,
                gender_idx,
                stroke_idx,
                is_relay,
                is_clear,
            } => {
                let l = self.download(slot);
                StateView {
                    loading: Some(
                        if is_clear {
                            l
                        } else {
                            LoadingView {
                                events: l.events.push(
                                    LoadedEvent {
                                        event_num,
                                        distance,
                                        gender_idx,
                                        stroke_idx,
                                        is_relay,
                                    },
                                ),
                                ..l
                            }
                        },
                    ),
                    ..self
                }
            },
            RequestView::FinalizeSlot { slot } => self.meet_applied(),
            _ => self,
        }
    }

    /// The race that a request asks for.
    pub open spec fn fetched(self, req: RequestView) -> Option<RaceView> {
        match req {
            RequestView::Fetch { verb, heat, event } => match verb {
                Verb::Latest => self.latest((event, heat)).1,
                Verb::Previous => self.previous((event, heat)).1,
                Verb::Next => self.next((event, heat)).1,
                Verb::ByRace => None,
            },
            RequestView::FetchByRace { race } => self.race(race),
            _ => None,
        }
    }

    /// The reply to a request; result frames are stamped with `year`.
    pub open spec fn reply(self, req: RequestView, year: u16) -> Seq<u8> {
        match req {
            RequestView::Identify => protocol::identify_frame(),
            RequestView::Commit => protocol::commit_ack_frame(),
            RequestView::CommTest => protocol::comm_test_ack_frame(),
            RequestView::Slot(n) => protocol::slot_frame(n, self.slot_name(n)),
            RequestView::MeetStatus => protocol::status_frame(
                clock::local_time_of(self.meet_date),
            ),
            RequestView::LoadMeetName { .. } => protocol::load_ack_frame(),
            RequestView::LoadCategoryLabel { .. } => protocol::load_ack_frame(),
            RequestView::LoadEventRecord { .. } => protocol::load_ack_frame(),
            RequestView::FinalizeSlot { .. } => protocol::finalize_ack_frame(),
            RequestView::Fetch { .. } | RequestView::FetchByRace { .. } => match self.fetched(req) {
                Some(r) => protocol::event_frame(r, year),
                None => protocol::no_data_frame(),
            },
            RequestView::Unknown(_) => protocol::no_data_frame(),
        }
    }

    /// What the request in `frame` from `peer` reports.
    pub open spec fn served_effects(
        self,
        req: RequestView,
        frame: Seq<u8>,
        peer: Seq<char>,
    ) -> Seq<EffectView> {
        match req {
            RequestView::CommTest => output::log1(
                "[net] comm-test wake from "@ + peer + " -> ack"@,
            ),
            RequestView::Slot(n) => output::log1(
                "[slot-list] Rs slot="@ + text::dec(n as nat) + " -> \""@ + self.slot_name(n)
                    + "\""@,
            ),
            RequestView::LoadMeetName { slot, name } => output::log1(
                "[meet-load] Is slot="@ + text::dec(slot as nat) + " name=\""@ + name + "\""@,
            ),
            RequestView::LoadCategoryLabel { category, idx, .. } => if category > 0x03 {
                output::log1(
                    "[meet-load] It unknown category=0x"@ + protocol::hex_text(seq![category])
                        + " idx="@ + text::dec(idx as nat),
                )
            } else {
                Seq::empty()
            },
            RequestView::FinalizeSlot { slot } => output::log1(
                "[meet-load] Ir finalize slot="@ + text::dec(slot as nat),
            ) + (match self.loading {
                Some(l) => if l.slot != 0 && l.slot != slot {
                    output::log1(
                        "[meet-load] Ir slot mismatch (loading slot="@ + text::dec(l.slot as nat)
                            + ", finalize slot="@ + text::dec(slot as nat)
                            + "); applying anyway"@,
                    )
                } else {
                    Seq::empty()
                },
                None => Seq::empty(),
            }) + self.meet_applied_effects(),
            RequestView::Fetch { .. } | RequestView::FetchByRace { .. } => if self.fetched(
                req,
            ) is None {
                output::log1(
                    "[net] "@ + peer + " no-data reply (empty bucket for frame: "@
                        + protocol::hex_text(frame) + ")"@,
                )
            } else {
                Seq::empty()
            },
            RequestView::Unknown(bytes) => output::log1(
                "[net] "@ + peer + " unknown frame ("@ + text::dec(bytes.len()) + " B): "@
                    + protocol::hex_text(bytes),
            ),
            _ => Seq::empty(),
        }
    }
}

/// Writes one category label of the download in flight.
fn load_label(state: &mut State, category: u8, idx: u8, label: String, out: &mut Vec<Effect>)
    requires
        old(state).wf(),
    ensures
        final(state).wf(),
        final(state)@ == old(state)@.served(
            RequestView::LoadCategoryLabel { category, idx, label: label@ },
        ),
        output::effects(final(out)@) == output::effects(old(out)@) + old(state)@.served_effects(
            RequestView::LoadCategoryLabel { category, idx, label: label@ },
            Seq::empty(),
            Seq::empty(),
        ),
{
    let ghost before = state@;
    let ghost req = RequestView::LoadCategoryLabel { category, idx, label: label@ };
    let ghost out0 = output::effects(out@);
    let mut l: LoadingMeet = match state.loading.take() {
        Some(l) => l,
        None => LoadingMeet::begin(0, String::new()),
    };
    assert(l@ =~= before.download(0));
    if category == 0x00 {
        set_label(&mut l.genders, idx, label);
    } else if category == 0x01 {
        set_label(&mut l.ages, idx, label);
    } else if category == 0x02 {
        set_label(&mut l.strokes, idx, label);
    } else if category == 0x03 {
        set_label(&mut l.rounds, idx, label);
    } else {
        let mut s: String = String::from_str("[meet-load] It unknown category=0x");
        let code: String = protocol::hex([category].as_slice());
        assert([category]@ =~= seq![category]);
        s.append(code.as_str());
        s.append(" idx=");
        text::put_dec(&mut s, idx as u64);
        output::say(out, s);
    }
    state.loading = Some(l);
    assert(state@ =~= before.served(req));
    assert(output::effects(out@) =~= out0 + before.served_effects(req, Seq::empty(), Seq::empty()));
}

/// Adds one event record to the download in flight; a clearing record only
/// begins a download.
fn load_event(state: &mut State, slot: u8, e: LoadedEvent, is_clear: bool)
    requires
        old(state).wf(),
    ensures
        final(state).wf(),
        final(state)@ == old(state)@.served(
            RequestView::LoadEventRecord {
                slot,
                event_num: e.event_num,
                distance: e.distance,
                gender_idx: e.gender_idx,
                stroke_idx: e.stroke_idx,
                is_relay: e.is_relay,
                is_clear,
            },
        ),
{
    let ghost before = state@;
    let mut l: LoadingMeet = match state.loading.take() {
        Some(l) => l,
        None => LoadingMeet::begin(slot, String::new()),
    };
    assert(l@ =~= before.download(slot));
    if !is_clear {
        l.events.push(e);
    }
    state.loading = Some(l);
    assert(state@ =~= before.served(
        RequestView::LoadEventRecord {
            slot,
            event_num: e.event_num,
            distance: e.distance,
            gender_idx: e.gender_idx,
            stroke_idx: e.stroke_idx,
            is_relay: e.is_relay,
            is_clear,
        },
    ));
}

/// Commits the download in flight.
fn finalize_slot(state: &mut State, slot: u8, out: &mut Vec<Effect>)
    requires
        old(state).wf(),
    ensures
        final(state).wf(),
        final(state)@ == old(state)@.meet_applied(),
        output::effects(final(out)@) == output::effects(old(out)@) + old(state)@.served_effects(
            RequestView::FinalizeSlot { slot },
            Seq::empty(),
            Seq::empty(),
        ),
{
    let ghost before = state@;
    let ghost out0 = output::effects(out@);
    let mut s: String = String::from_str("[meet-load] Ir finalize slot=");
    text::put_dec(&mut s, slot as u64);
    output::say(out, s);
    match &state.loading {
        Some(l) => {
            if l.slot != 0 && l.slot != slot {
                let mut s: String = String::from_str("[meet-load] Ir slot mismatch (loading slot=");
                text::put_dec(&mut s, l.slot as u64);
                s.append(", finalize slot=");
                text::put_dec(&mut s, slot as u64);
                s.append("); applying anyway");
                output::say(out, s);
            }
        },
        None => {},
    }
    state.apply_loading_meet(out);
    assert(output::effects(out@) =~= out0 + before.served_effects(
        RequestView::FinalizeSlot { slot },
        Seq::empty(),
        Seq::empty(),
    ));
}

/// The result frame of the race that a query asks for, if there is one.
fn fetch(state: &mut State, verb: Verb, heat: u8, event: u16, year: u16) -> (r: Option<Vec<u8>>)
    requires
        old(state).wf(),
    ensures
        final(state).wf(),
        final(state)@ == old(state)@.served(RequestView::Fetch { verb, heat, event }),
        match r {
            Some(b) => old(state)@.fetched(RequestView::Fetch { verb, heat, event }) matches Some(
                race,
            ) && b@ == protocol::event_frame(race, year),
            None => old(state)@.fetched(RequestView::Fetch { verb, heat, event }) is None,
        },
{
    let ghost before = state@;
    let found: Option<&Race> = match verb {
        Verb::Latest => state.lookup_latest(event, heat),
        Verb::Previous => state.lookup_previous(event, heat),
        Verb::Next => state.lookup_next(event, heat),
        Verb::ByRace => None,
    };
    match found {
        Some(race) => {
            proof {
                lemma_fetched_wf(before, RequestView::Fetch { verb, heat, event });
            }
            Some(protocol::event_response_for_year(race, year))
        },
        None => None,
    }
}

/// A race that a request asks for is a stored one.
proof fn lemma_fetched_wf(s: StateView, req: RequestView)
    requires
        s.wf(),
    ensures
        s.fetched(req) matches Some(r) ==> r.wf(),
{
    match req {
        RequestView::Fetch { verb, heat, event } => {
            let k = (event, heat);
            if s.history.contains_key(k) {
                assert(s.bucket_ok(k));
            }
        },
        _ => {},
    }
}

/// The no-data reply to a query, and its log line.
fn no_data(frame: &[u8], peer: &str, out: &mut Vec<Effect>) -> (r: Vec<u8>)
    ensures
        r@ == protocol::no_data_frame(),
        output::effects(final(out)@) == output::effects(old(out)@) + output::log1(
            "[net] "@ + peer@ + " no-data reply (empty bucket for frame: "@ + protocol::hex_text(
                frame@,
            ) + ")"@,
        ),
{
    let mut s: String = String::from_str("[net] ");
    s.append(peer);
    s.append(" no-data reply (empty bucket for frame: ");
    let bytes: String = protocol::hex(frame);
    s.append(bytes.as_str());
    s.append(")");
    output::say(out, s);
    protocol::no_data_reply()
}

/// Serves the frame that a client sent, and returns the reply. Result frames
/// are stamped with `year`.
pub fn handle_frame(state: &mut State, frame: &[u8], peer: &str, year: u16, out: &mut Vec<Effect>) -> (r:
    Vec<u8>)
    requires
        old(state).wf(),
    ensures
        final(state).wf(),
        final(state)@ == old(state)@.served(protocol::request_of(frame@)),
        r@ == old(state)@.reply(protocol::request_of(frame@), year),
        output::effects(final(out)@) == output::effects(old(out)@) + old(state)@.served_effects(
            protocol::request_of(frame@),
            frame@,
            peer@,
        ),
{
    let ghost before = state@;
    let ghost out0 = output::effects(out@);
    assert(out0 + Seq::<EffectView>::empty() =~= out0);
    match protocol::parse_request(frame) {
        Request::Identify => protocol::identify_reply(),
        Request::Commit => protocol::commit_ack(),
        Request::CommTest => {
            let mut s: String = String::from_str("[net] comm-test wake from ");
            s.append(peer);
            s.append(" -> ack");
            output::say(out, s);
            protocol::comm_test_ack()
        },
        Request::Slot(n) => {
            let name: String = if 1 <= n && n as usize <= NUM_SLOTS {
                state.slots[n as usize - 1].name.clone()
            } else {
                String::new()
            };
            assert(name@ == before.slot_name(n));
            let mut s: String = String::from_str("[slot-list] Rs slot=");
            text::put_dec(&mut s, n as u64);
            s.append(" -> \"");
            s.append(name.as_str());
            s.append("\"");
            output::say(out, s);
            protocol::slot_reply(n, name.as_str())
        },
        Request::MeetStatus => protocol::meet_status_reply(&state.meet_date),
        Request::Fetch { verb, heat, event } => match fetch(state, verb, heat, event, year) {
            Some(b) => b,
            None => no_data(frame, peer, out),
        },
        Request::FetchByRace { race } => match state.lookup_by_race(race) {
            Some(r) => protocol::event_response_for_year(r, year),
            None => no_data(frame, peer, out),
        },
        Request::LoadMeetName { slot, name } => {
            let mut s: String = String::from_str("[meet-load] Is slot=");
            text::put_dec(&mut s, slot as u64);
            s.append(" name=\"");
            s.append(name.as_str());
            s.append("\"");
            output::say(out, s);
            let ghost called = name@;
            state.loading = Some(LoadingMeet::begin(slot, name));
            assert(state@ =~= before.served(RequestView::LoadMeetName { slot, name: called }));
            protocol::load_ack()
        },
        Request::LoadCategoryLabel { category, idx, label } => {
            load_label(state, category, idx, label, out);
            protocol::load_ack()
        },
        Request::LoadEventRecord {
            slot,
            event_num,
            distance,
            gender_idx,
            stroke_idx,
            is_relay,
            is_clear,
        } => {
            let e: LoadedEvent = LoadedEvent {
                event_num,
                distance,
                gender_idx,
                stroke_idx,
                is_relay,
            };
            load_event(state, slot, e, is_clear);
            protocol::load_ack()
        },
        Request::FinalizeSlot { slot } => {
            finalize_slot(state, slot, out);
            protocol::finalize_ack()
        },
        Request::Unknown(bytes) => {
            let mut s: String = String::from_str("[net] ");
            s.append(peer);
            s.append(" unknown frame (");
            text::put_dec(&mut s, bytes.len() as u64);
            s.append(" B): ");
            let dump: String = protocol::hex(bytes.as_slice());
            s.append(dump.as_str());
            output::say(out, s);
            protocol::nack()
        },
    }
}

/// Serves the frame that a client sent, and returns the reply. Result frames
/// are stamped with the current year.
pub fn serve_frame(state: &mut State, frame: &[u8], peer: &str, out: &mut Vec<Effect>) -> (r:
    Vec<u8>)
    requires
        old(state).wf(),
    ensures
        final(state).wf(),
        final(state)@ == old(state)@.served(protocol::request_of(frame@)),
        exists|year: u16|
            year >= 1970 && r@ == #[trigger] old(state)@.reply(
                protocol::request_of(frame@),
                year,
            ),
        output::effects(final(out)@) == output::effects(old(out)@) + old(state)@.served_effects(
            protocol::request_of(frame@),
            frame@,
            peer@,
        ),
{
    let year: u16 = clock::current_year();
    handle_frame(state, frame, peer, year, out)
}

/// A finalized race is the reply to the next query for the latest race of its
/// event and heat, in the short form of the query and in the long one, and to a
/// query for its number; the number in a query is a byte.
pub proof fn law_finalized_race_is_reported(s: StateView, address: u8, chk: u8, year: u16)
    requires
        s.wf(),
        s.in_progress is Some,
    ensures
        ({
            let ip = s.in_progress->0;
            let frame = protocol::event_frame(race::race_result(ip), year);
            let t = s.finalized();
            &&& t.reply(
                protocol::request_of(
                    protocol::long_query(address, Verb::Latest, ip.heat as u16, ip.event, chk),
                ),
                year,
            ) == frame
            &&& ip.event <= 255 ==> t.reply(
                protocol::request_of(
                    protocol::short_query(address, Verb::Latest, ip.heat, ip.event as u8, chk),
                ),
                year,
            ) == frame
            &&& ip.race_no <= 255 ==> forall|second: u8|
                t.reply(
                    protocol::request_of(
                        #[trigger] protocol::short_query(
                            address,
                            Verb::ByRace,
                            ip.race_no as u8,
                            second,
                            chk,
                        ),
                    ),
                    year,
                ) == frame
        }),
{
    let ip = s.in_progress->0;
    running::law_finalized_race_is_returned(s);
    protocol::law_long_query_reads_back(address, Verb::Latest, ip.heat as u16, ip.event, chk);
    if ip.event <= 255 {
        protocol::law_short_query_reads_back(
            address,
            Verb::Latest,
            ip.heat,
            ip.event as u8,
            chk,
        );
    }
    if ip.race_no <= 255 {
        assert forall|second: u8|
            s.finalized().reply(
                protocol::request_of(
                    #[trigger] protocol::short_query(
                        address,
                        Verb::ByRace,
                        ip.race_no as u8,
                        second,
                        chk,
                    ),
                ),
                year,
            ) == protocol::event_frame(race::race_result(ip), year) by {
            protocol::law_short_query_reads_back(
                address,
                Verb::ByRace,
                ip.race_no as u8,
                second,
                chk,
            );
        }
    }
}

/// A query for a race that is not stored, and a frame that is not understood,
/// are answered with the no-data frame and change nothing.
pub proof fn law_refusals_are_no_data(s: StateView, req: RequestView, year: u16)
    requires
        s.wf(),
        (req matches RequestView::Fetch { heat, event, .. } ==> !s.history.contains_key(
            (event, heat),
        )),
        (req matches RequestView::FetchByRace { race } ==> !s.races.contains_key(race)),
        req is Fetch || req is FetchByRace || req is Unknown,
    ensures
        s.reply(req, year) == protocol::no_data_frame(),
        s.served(req) == s,
{
    match req {
        RequestView::Fetch { verb, heat, event } => {
            assert(s.served(req) =~= s);
        },
        _ => {},
    }
}

/// Only a download frame changes anything but a cursor, and only its last frame
/// changes anything but the download.
pub proof fn law_clients_change_little(s: StateView, req: RequestView)
    requires
        s.wf(),
    ensures
        !(req is LoadMeetName || req is LoadCategoryLabel || req is LoadEventRecord
            || req is FinalizeSlot) ==> s.served(req) == (StateView {
            cursor: s.served(req).cursor,
            ..s
        }),
        req is LoadMeetName || req is LoadCategoryLabel || req is LoadEventRecord ==> s.served(req)
            == (StateView { loading: s.served(req).loading, ..s }),
        req is FinalizeSlot ==> s.served(req) == (StateView {
            loading: None,
            lineup: s.served(req).lineup,
            ..s
        }),
{
    match req {
        RequestView::FinalizeSlot { .. } => {
            assert(s.served(req) =~= (StateView {
                loading: None,
                lineup: s.served(req).lineup,
                ..s
            }));
        },
        _ => {},
    }
}

/// The records of a download are collected in the order of arrival and define
/// the lineup when the download is committed, whatever slot number the
/// committing frame names.
pub proof fn law_download_defines_the_lineup(
    s: StateView,
    slot: u8,
    name: Seq<char>,
    records: Seq<LoadedEvent>,
    committed: u8,
)
    requires
        s.wf(),
        records.len() > 0,
    ensures
        ({
            let begun = s.served(RequestView::LoadMeetName { slot, name });
            let full = records_served(begun, slot, records);
            let done = full.served(RequestView::FinalizeSlot { slot: committed });
            &&& full.loading == Some(LoadingView { events: records, ..LoadingView::begun(slot, name) })
            &&& done.lineup == state::loaded_lineup(full.loading->0)
            &&& done.loading is None
        }),
{
    let begun = s.served(RequestView::LoadMeetName { slot, name });
    lemma_records_served(begun, slot, records);
    assert(Seq::<LoadedEvent>::empty() + records =~= records);
}

/// The state after event records have arrived one after the other.
pub open spec fn records_served(s: StateView, slot: u8, records: Seq<LoadedEvent>) -> StateView
    decreases records.len(),
{
    if records.len() == 0 {
        s
    } else {
        let e = records.last();
        records_served(s, slot, records.drop_last()).served(
            RequestView::LoadEventRecord {
                slot,
                event_num: e.event_num,
                distance: e.distance,
                gender_idx: e.gender_idx,
                stroke_idx: e.stroke_idx,
                is_relay: e.is_relay,
                is_clear: false,
            },
        )
    }
}

proof fn lemma_records_served(s: StateView, slot: u8, records: Seq<LoadedEvent>)
    requires
        s.loading is Some,
    ensures
        records_served(s, slot, records) == (StateView {
            loading: Some(
                LoadingView { events: s.loading->0.events + records, ..s.loading->0 },
            ),
            ..s
        }),
    decreases records.len(),
{
    if records.len() == 0 {
        assert(s.loading->0.events + records =~= s.loading->0.events);
    } else {
        lemma_records_served(s, slot, records.drop_last());
        assert((s.loading->0.events + records.drop_last()).push(records.last())
            =~= s.loading->0.events + records);
    }
}

/// Every frame is answered.
pub proof fn law_every_frame_is_answered(s: StateView, frame: Seq<u8>, year: u16)
    requires
        s.wf(),
    ensures
        s.reply(protocol::request_of(frame), year).len() > 0,
{
    match s.fetched(protocol::request_of(frame)) {
        Some(r) => {
            protocol::law_event_frame_length(r, year);
        },
        None => {},
    }
}

/// A record that clears an event adds nothing to a download.
pub proof fn law_clearing_records_are_filtered_out(s: StateView, req: RequestView)
    requires
        s.loading is Some,
        req matches RequestView::LoadEventRecord { is_clear, .. } && is_clear,
    ensures
        s.served(req) == s,
{
    assert(s.served(req) =~= s);
}

/// A label that is written is found under its index, and the labels under other
/// indices stay.
pub proof fn law_written_label_is_found(table: Seq<Seq<char>>, idx: u8, label: Seq<char>, i: int)
    ensures
        labelled(table, idx, label)[idx as int] == label,
        0 <= i < table.len() && i != idx ==> labelled(table, idx, label)[i] == table[i],
        labelled(table, idx, label).len() >= table.len(),
        labelled(table, idx, label).len() > idx,
{
}

/// A label is written into the table of its category (0 for genders, 1 for
/// ages, 2 for strokes, 3 for rounds) and no other; the places between the end of
/// a table and a label beyond it are empty labels.
pub proof fn law_labels_go_to_their_table(
    l: LoadingView,
    category: u8,
    idx: u8,
    label: Seq<char>,
    i: int,
)
    ensures
        ({
            let t = l.with_label(category, idx, label);
            &&& category == 0 ==> t == (LoadingView { genders: t.genders, ..l }) && t.genders[idx
                as int] == label && t.genders.len() > idx
            &&& category == 1 ==> t == (LoadingView { ages: t.ages, ..l }) && t.ages[idx as int]
                == label && t.ages.len() > idx
            &&& category == 2 ==> t == (LoadingView { strokes: t.strokes, ..l }) && t.strokes[idx
                as int] == label && t.strokes.len() > idx
            &&& category == 3 ==> t == (LoadingView { rounds: t.rounds, ..l }) && t.rounds[idx
                as int] == label && t.rounds.len() > idx
            &&& category > 3 ==> t == l
            &&& category == 0 && 0 <= i < t.genders.len() && i != idx ==> t.genders[i] == (if i
                < l.genders.len() {
                l.genders[i]
            } else {
                Seq::empty()
            })
            &&& category == 2 && 0 <= i < t.strokes.len() && i != idx ==> t.strokes[i] == (if i
                < l.strokes.len() {
                l.strokes[i]
            } else {
                Seq::empty()
            })
            &&& category == 0 ==> t.genders.len() == (if l.genders.len() > idx {
                l.genders.len()
            } else {
                idx as nat + 1
            })
            &&& category == 2 ==> t.strokes.len() == (if l.strokes.len() > idx {
                l.strokes.len()
            } else {
                idx as nat + 1
            })
        }),
{
}

/// A meet-name frame begins a download with its slot and name, without labels
/// and records, in place of one that was in flight.
pub proof fn law_meet_name_begins_a_download(s: StateView, slot: u8, name: Seq<char>)
    ensures
        s.served(RequestView::LoadMeetName { slot, name }).loading matches Some(l) && l.slot == slot
            && l.name == name && l.genders.len() == 0 && l.ages.len() == 0 && l.strokes.len() == 0
            && l.rounds.len() == 0 && l.events.len() == 0,
{
}

/// A label or record without a meet-name frame before it begins a download of
/// its own, for slot 0 or the record's slot, without a name.
pub proof fn law_download_may_begin_anywhere(
    s: StateView,
    category: u8,
    idx: u8,
    label: Seq<char>,
    slot: u8,
    e: LoadedEvent,
    is_clear: bool,
)
    ensures
        ({
            let req = RequestView::LoadEventRecord {
                slot,
                event_num: e.event_num,
                distance: e.distance,
                gender_idx: e.gender_idx,
                stroke_idx: e.stroke_idx,
                is_relay: e.is_relay,
                is_clear,
            };
            let before = match s.loading {
                Some(l) => l,
                None => LoadingView {
                    slot,
                    name: Seq::empty(),
                    genders: Seq::empty(),
                    ages: Seq::empty(),
                    strokes: Seq::empty(),
                    rounds: Seq::empty(),
                    events: Seq::empty(),
                },
            };
            &&& s.served(req).loading == Some(
                LoadingView {
                    events: if is_clear {
                        before.events
                    } else {
                        before.events.push(e)
                    },
                    ..before
                },
            )
            &&& s.loading is Some ==> s.served(
                RequestView::LoadCategoryLabel { category, idx, label },
            ).loading == Some(s.loading->0.with_label(category, idx, label))
            &&& s.loading is None ==> s.served(
                RequestView::LoadCategoryLabel { category, idx, label },
            ).loading == Some(
                LoadingView {
                    slot: 0,
                    name: Seq::empty(),
                    genders: Seq::empty(),
                    ages: Seq::empty(),
                    strokes: Seq::empty(),
                    rounds: Seq::empty(),
                    events: Seq::empty(),
                }.with_label(category, idx, label),
            )
        }),
{
}

/// The replies of fixed bytes, by request. A frame that is not understood gets
/// the same reply as a query without a race.
pub proof fn law_fixed_replies(s: StateView, req: RequestView, year: u16)
    ensures
        req is Identify ==> protocol::holds(
            s.reply(req, year),
            seq![0x0A, 0x00, 0x31, 0x2E, 0x32, 0x33, 0x32, 0x00, 0xFF, 0xFE],
        ),
        req is Commit ==> protocol::holds(s.reply(req, year), seq![0x05, 0x00, 0x07, 0xF3, 0xFF]),
        req is CommTest ==> protocol::holds(
            s.reply(req, year),
            seq![0x06, 0x00, 0x32, 0x01, 0x3B, 0xEB],
        ),
        req is LoadMeetName || req is LoadCategoryLabel || req is LoadEventRecord
            ==> protocol::holds(s.reply(req, year), seq![0x06, 0x00, 0x06, 0x00, 0xF3, 0xFF]),
        req is FinalizeSlot ==> protocol::holds(
            s.reply(req, year),
            seq![0x06, 0x00, 0x64, 0x00, 0x95, 0xFF],
        ),
        req is Unknown || ((req is Fetch || req is FetchByRace) && s.fetched(req) is None)
            ==> protocol::holds(s.reply(req, year), seq![0x06, 0x00, 0x32, 0x00, 0xC7, 0xFF]),
{
    let a = seq![0x0Aint, 0x00, 0x31, 0x2E, 0x32, 0x33, 0x32, 0x00, 0xFF, 0xFE];
    let b = seq![0x05int, 0x00, 0x07, 0xF3, 0xFF];
    let c = seq![0x06int, 0x00, 0x32, 0x01, 0x3B, 0xEB];
    let d = seq![0x06int, 0x00, 0x06, 0x00, 0xF3, 0xFF];
    let e = seq![0x06int, 0x00, 0x64, 0x00, 0x95, 0xFF];
    let f = seq![0x06int, 0x00, 0x32, 0x00, 0xC7, 0xFF];
    assert(protocol::holds(protocol::identify_frame(), a));
    assert(protocol::holds(protocol::commit_ack_frame(), b));
    assert(protocol::holds(protocol::comm_test_ack_frame(), c));
    assert(protocol::holds(protocol::load_ack_frame(), d));
    assert(protocol::holds(protocol::finalize_ack_frame(), e));
    assert(protocol::holds(protocol::no_data_frame(), f));
}

/// A slot query is answered with the name of the slot, from 1 to 8, and with an
/// empty name for any other number; a status request with the meet's date.
pub proof fn law_slot_names_are_told(s: StateView, n: u8, year: u16)
    requires
        s.wf(),
    ensures
        1 <= n <= 8 ==> s.reply(RequestView::Slot(n), year) == protocol::slot_frame(
            n,
            s.slots[n - 1].name,
        ),
        n == 0 || n > 8 ==> s.reply(RequestView::Slot(n), year) == protocol::slot_frame(
            n,
            Seq::empty(),
        ),
        s.reply(RequestView::MeetStatus, year) == protocol::status_frame(
            clock::local_time_of(s.meet_date),
        ),
{
}

/// A race query is answered with the frame of the race that it asks for: by its
/// number, the last one filed under the event and heat, or the one that a step
/// of the walk lands on.
pub proof fn law_queries_are_answered_with_the_race(
    s: StateView,
    heat: u8,
    event: u16,
    id: u16,
    year: u16,
)
    requires
        s.wf(),
    ensures
        s.races.contains_key(id) ==> s.reply(RequestView::FetchByRace { race: id }, year)
            == protocol::event_frame(s.races[id], year),
        s.history.contains_key((event, heat)) ==> s.reply(
            RequestView::Fetch { verb: Verb::Latest, heat, event },
            year,
        ) == protocol::event_frame(
            s.races[s.history[(event, heat)][s.history[(event, heat)].len() - 1]],
            year,
        ),
        s.served(RequestView::Fetch { verb: Verb::Latest, heat, event }) == s.latest(
            (event, heat),
        ).0,
        s.next((event, heat)).1 matches Some(r) ==> s.reply(
            RequestView::Fetch { verb: Verb::Next, heat, event },
            year,
        ) == protocol::event_frame(r, year),
        s.served(RequestView::Fetch { verb: Verb::Next, heat, event }) == s.next((event, heat)).0,
        s.previous((event, heat)).1 matches Some(r) ==> s.reply(
            RequestView::Fetch { verb: Verb::Previous, heat, event },
            year,
        ) == protocol::event_frame(r, year),
        s.served(RequestView::Fetch { verb: Verb::Previous, heat, event }) == s.previous(
            (event, heat),
        ).0,
        s.next((event, heat)).1 is None ==> s.fetched(
            RequestView::Fetch { verb: Verb::Next, heat, event },
        ) is None,
        s.previous((event, heat)).1 is None ==> s.fetched(
            RequestView::Fetch { verb: Verb::Previous, heat, event },
        ) is None,
{
    if s.history.contains_key((event, heat)) {
        state::law_latest_is_the_last_filed(s, (event, heat));
    }
}

/// A frame that commits a download ends it and makes it the lineup.
pub proof fn law_finalize_frame_commits(s: StateView, slot: u8)
    ensures
        s.served(RequestView::FinalizeSlot { slot }).loading is None,
        s.loading is Some && s.loading->0.events.len() > 0 ==> s.served(
            RequestView::FinalizeSlot { slot },
        ).lineup == state::loaded_lineup(s.loading->0),
        s.loading is None || s.loading->0.events.len() == 0 ==> s.served(
            RequestView::FinalizeSlot { slot },
        ).lineup == s.lineup,
{
}

/// What is logged of a request.
pub proof fn law_requests_are_logged(
    s: StateView,
    req: RequestView,
    frame: Seq<u8>,
    peer: Seq<char>,
)
    requires
        s.wf(),
    ensures
        ({
            let e = s.served_effects(req, frame, peer);
            &&& req is Identify || req is Commit || req is MeetStatus || req is LoadEventRecord
                ==> e.len() == 0
            &&& req is CommTest ==> e == seq![
                EffectView::Log("[net] comm-test wake from "@ + peer + " -> ack"@),
            ]
            &&& req matches RequestView::Slot(n) ==> e == seq![
                EffectView::Log(
                    "[slot-list] Rs slot="@ + text::dec(n as nat) + " -> \""@ + (if 1 <= n <= 8 {
                        s.slots[n - 1].name
                    } else {
                        Seq::empty()
                    }) + "\""@,
                ),
            ]
            &&& req matches RequestView::LoadMeetName { slot, name } ==> e == seq![
                EffectView::Log(
                    "[meet-load] Is slot="@ + text::dec(slot as nat) + " name=\""@ + name
                        + "\""@,
                ),
            ]
            &&& req matches RequestView::LoadCategoryLabel { category, idx, .. } ==> {
                &&& category <= 3 ==> e.len() == 0
                &&& category > 3 ==> e == seq![
                    EffectView::Log(
                        "[meet-load] It unknown category=0x"@ + protocol::hex_text(seq![category])
                            + " idx="@ + text::dec(idx as nat),
                    ),
                ]
            }
            &&& req is Fetch || req is FetchByRace ==> {
                &&& s.fetched(req) is Some ==> e.len() == 0
                &&& s.fetched(req) is None ==> e == seq![
                    EffectView::Log(
                        "[net] "@ + peer + " no-data reply (empty bucket for frame: "@
                            + protocol::hex_text(frame) + ")"@,
                    ),
                ]
            }
            &&& req matches RequestView::Unknown(bytes) ==> e == seq![
                EffectView::Log(
                    "[net] "@ + peer + " unknown frame ("@ + text::dec(bytes.len()) + " B): "@
                        + protocol::hex_text(bytes),
                ),
            ]
        }),
{
}

/// What is logged of the frame that commits a download: its slot, that this is
/// not the download's where they differ, and what is committed.
pub proof fn law_finalize_frame_is_logged(s: StateView, slot: u8, frame: Seq<u8>, peer: Seq<char>)
    ensures
        ({
            let e = s.served_effects(RequestView::FinalizeSlot { slot }, frame, peer);
            let first = EffectView::Log("[meet-load] Ir finalize slot="@ + text::dec(slot as nat));
            let differs = s.loading is Some && s.loading->0.slot != 0 && s.loading->0.slot != slot;
            &&& !differs ==> e == seq![first] + s.meet_applied_effects()
            &&& differs ==> e == seq![
                first,
                EffectView::Log(
                    "[meet-load] Ir slot mismatch (loading slot="@ + text::dec(
                        s.loading->0.slot as nat,
                    ) + ", finalize slot="@ + text::dec(slot as nat) + "); applying anyway"@,
                ),
            ] + s.meet_applied_effects()
        }),
{
    let e = s.served_effects(RequestView::FinalizeSlot { slot }, frame, peer);
    let first = EffectView::Log("[meet-load] Ir finalize slot="@ + text::dec(slot as nat));
    let differs = s.loading is Some && s.loading->0.slot != 0 && s.loading->0.slot != slot;
    if differs {
        assert(e =~= seq![
            first,
            EffectView::Log(
                "[meet-load] Ir slot mismatch (loading slot="@ + text::dec(
                    s.loading->0.slot as nat,
                ) + ", finalize slot="@ + text::dec(slot as nat) + "); applying anyway"@,
            ),
        ] + s.meet_applied_effects());
    } else {
        assert(e =~= seq![first] + s.meet_applied_effects());
    }
}

} // verus!
