//! MIDI clock and transport: what each message of a sequencer does to the
//! position and to the window of clock intervals from which the tempo is
//! taken.
use vstd::prelude::*;

verus! {

/// Clock pulses per quarter note.
pub const PPQN: u64 = 24;

/// Beats per bar where nothing else is chosen.
pub const BEATS_PER_BAR: u64 = 4;

/// Where the sequencer is.
#[derive(Debug, Clone, Copy, PartialEq, Eq, Structural)]
pub struct GridState {
    pub playing: bool,
    /// Clock pulses since the transport started.
    pub pulses: u64,
    /// A clock pulse has come.
    pub connected: bool,
}

/// What is kept between messages.
#[derive(Debug)]
pub struct ParserState {
    pub grid: GridState,
    /// When the last clock pulse came, in microseconds.
    pub last_clock_us: Option<u64>,
    /// The intervals of one beat, in microseconds, written round and round.
    pub interval_us: [u64; 24],
    /// Where the next interval goes.
    pub idx: usize,
    /// From how many intervals the tempo is taken, counted from the front.
    pub count: usize,
}

/// The contents of a [`ParserState`].
#[verifier::ext_equal]
pub struct ParserView {
    pub grid: GridState,
    pub last_clock_us: Option<u64>,
    pub interval_us: Seq<u64>,
    pub idx: int,
    pub count: int,
}

impl View for ParserState {
    type V = ParserView;

    open spec fn view(&self) -> ParserView {
        ParserView {
            grid: self.grid,
            last_clock_us: self.last_clock_us,
            interval_us: self.interval_us@,
            idx: self.idx as int,
            count: self.count as int,
        }
    }
}

impl ParserView {
    /// The window has its size.
    pub open spec fn well_formed(self) -> bool {
        &&& self.interval_us.len() == 24
        &&& 0 <= self.idx < 24
        &&& 0 <= self.count <= 24
        &&& self.count < 24 ==> self.idx == self.count
    }

    /// The intervals from which the tempo is taken.
    pub open spec fn recent(self) -> Seq<u64> {
        self.interval_us.take(self.count)
    }
}

/// Nothing has come yet.
pub open spec fn quiet() -> ParserView {
    ParserView {
        grid: GridState { playing: false, pulses: 0, connected: false },
        last_clock_us: None,
        interval_us: Seq::new(24, |i: int| 0u64),
        idx: 0,
        count: 0,
    }
}

/// The time from `last` to `now` on a clock that wraps around.
pub open spec fn elapsed(last: u64, now: u64) -> int {
    if now >= last {
        now - last
    } else {
        now - last + 0x1_0000_0000_0000_0000
    }
}

/// The interval that a pulse at `now` ends, where one has come before and it
/// is longer than nothing and shorter than a second.
pub open spec fn interval_at(p: ParserView, now: u64) -> Option<u64> {
    match p.last_clock_us {
        Some(last) => if 0 < elapsed(last, now) < 1_000_000 {
            Some(elapsed(last, now) as u64)
        } else {
            None
        },
        None => None,
    }
}

/// The state with an interval more in the window.
pub open spec fn with_interval(p: ParserView, dt: u64) -> ParserView {
    ParserView {
        interval_us: p.interval_us.update(p.idx, dt),
        idx: if p.idx == 23 {
            0
        } else {
            p.idx + 1
        },
        count: if p.count < 24 {
            p.count + 1
        } else {
            24
        },
        ..p
    }
}

/// After a clock pulse at `now`.
pub open spec fn after_clock(p: ParserView, now: u64) -> ParserView {
    let q = match interval_at(p, now) {
        Some(dt) => with_interval(p, dt),
        None => p,
    };
    ParserView {
        last_clock_us: Some(now),
        grid: GridState {
            pulses: if p.grid.pulses == u64::MAX {
                0
            } else {
                (p.grid.pulses + 1) as u64
            },
            connected: true,
            ..p.grid
        },
        ..q
    }
}

/// The position that a pointer of two seven-bit bytes tells, in pulses: it
/// counts sixteenth notes, six pulses each.
pub open spec fn pointer_pulses(lsb: u8, msb: u8) -> int {
    ((msb % 128) * 128 + lsb % 128) * 6
}

/// After a message that came at `now`.
pub open spec fn after_message(p: ParserView, now: u64, msg: Seq<u8>) -> ParserView {
    if msg.len() == 0 {
        p
    } else if msg[0] == 0xF8 {
        after_clock(p, now)
    } else if msg[0] == 0xFA {
        ParserView {
            grid: GridState { pulses: 0, playing: true, ..p.grid },
            last_clock_us: None,
            idx: 0,
            count: 0,
            ..p
        }
    } else if msg[0] == 0xFB {
        ParserView {
            grid: GridState { playing: true, ..p.grid },
            last_clock_us: None,
            idx: 0,
            count: 0,
            ..p
        }
    } else if msg[0] == 0xFC {
        ParserView { grid: GridState { playing: false, ..p.grid }, ..p }
    } else if msg[0] == 0xF2 && msg.len() >= 3 {
        ParserView {
            grid: GridState { pulses: pointer_pulses(msg[1], msg[2]) as u64, ..p.grid },
            ..p
        }
    } else {
        p
    }
}

/// The message changes the window of intervals, and with it the tempo.
pub open spec fn changes_tempo(p: ParserView, now: u64, msg: Seq<u8>) -> bool {
    msg.len() > 0 && msg[0] == 0xF8 && interval_at(p, now) is Some
}

impl GridState {
    pub fn new() -> (r: Self)
        ensures
            r == quiet().grid,
    {
        GridState { playing: false, pulses: 0, connected: false }
    }

    /// Bar and beat, counted from one, in bars of four beats.
    pub fn bar_beat(&self) -> (r: (u32, u32))
        requires
            bar_fits(self.pulses, 4),
        ensures
            r == bar_beat_at(self.pulses, 4),
    {
        bar_beat_for(self.pulses)
    }
}

impl ParserState {
    pub fn new() -> (r: Self)
        ensures
            r@ == quiet(),
            r@.well_formed(),
    {
        let r = ParserState {
            grid: GridState::new(),
            last_clock_us: None,
            interval_us: [0; 24],
            idx: 0,
            count: 0,
        };
        assert(r@.interval_us =~= quiet().interval_us);
        r
    }

    /// The intervals from which the tempo is taken, in microseconds.
    pub fn recent(&self) -> (r: Vec<u64>)
        requires
            self@.well_formed(),
        ensures
            r@ == self@.recent(),
    {
        let mut out: Vec<u64> = Vec::new();
        let mut i: usize = 0;
        while i < self.count
            invariant
                0 <= i <= self.count <= 24,
                out@ =~= self.interval_us@.take(i as int),
            decreases self.count - i,
        {
            out.push(self.interval_us[i]);
            i += 1;
        }
        out
    }

    fn clock(&mut self, now: u64) -> (r: bool)
        requires
            old(self)@.well_formed(),
        ensures
            final(self)@ == after_clock(old(self)@, now),
            final(self)@.well_formed(),
            r == interval_at(old(self)@, now) is Some,
    {
        let mut changed = false;
        if let Some(last) = self.last_clock_us {
            let dt: u64 = now.wrapping_sub(last);
            if dt > 0 && dt < 1_000_000 {
                self.interval_us[self.idx] = dt;
                self.idx = if self.idx == 23 {
                    0
                } else {
                    self.idx + 1
                };
                if self.count < 24 {
                    self.count = self.count + 1;
                }
                changed = true;
            }
        }
        self.last_clock_us = Some(now);
        self.grid.connected = true;
        self.grid.pulses = self.grid.pulses.wrapping_add(1);
        assert(self@ =~= after_clock(old(self)@, now));
        changed
    }
}

/// Take a message that came at `ts_us`. Tells whether the tempo is to be taken
/// anew.
pub fn on_message(ts_us: u64, msg: &[u8], state: &mut ParserState) -> (r: bool)
    requires
        old(state)@.well_formed(),
    ensures
        final(state)@ == after_message(old(state)@, ts_us, msg@),
        final(state)@.well_formed(),
        r == changes_tempo(old(state)@, ts_us, msg@),
{
    if msg.len() == 0 {
        return false;
    }
    let kind: u8 = msg[0];
    if kind == 0xF8 {
        return state.clock(ts_us);
    }
    if kind == 0xFA {
        state.grid.pulses = 0;
        state.grid.playing = true;
        state.last_clock_us = None;
        state.idx = 0;
        state.count = 0;
    } else if kind == 0xFB {
        state.grid.playing = true;
        state.last_clock_us = None;
        state.idx = 0;
        state.count = 0;
    } else if kind == 0xFC {
        state.grid.playing = false;
    } else if kind == 0xF2 && msg.len() >= 3 {
        let lsb: u64 = (msg[1] % 128) as u64;
        let msb: u64 = (msg[2] % 128) as u64;
        state.grid.pulses = (msb * 128 + lsb) * 6;
    }
    assert(state@ =~= after_message(old(state)@, ts_us, msg@));
    false
}

/// The bar of a position, counted from zero, fits behind being counted from
/// one in 32 bits.
pub open spec fn bar_fits(pulses: u64, beats_per_bar: int) -> bool {
    (pulses as int / 24 / beats_per_bar) % 0x1_0000_0000 < u32::MAX
}

/// Bar and beat of a position, both counted from one.
pub open spec fn bar_beat_at(pulses: u64, beats_per_bar: int) -> (u32, u32) {
    let beats = pulses as int / 24;
    (
        ((beats / beats_per_bar) % 0x1_0000_0000 + 1) as u32,
        (beats % beats_per_bar + 1) as u32,
    )
}

/// Bar and beat of a position, counted from one, in bars of `beats_per_bar`
/// beats.
pub fn bar_beat_in(pulses: u64, beats_per_bar: u32) -> (r: (u32, u32))
    requires
        beats_per_bar > 0,
        bar_fits(pulses, beats_per_bar as int),
    ensures
        r == bar_beat_at(pulses, beats_per_bar as int),
{
    let total_beats: u64 = pulses / PPQN;
    let per: u64 = beats_per_bar as u64;
    let bars: u64 = (total_beats / per) % 0x1_0000_0000;
    let beat: u64 = total_beats % per;
    (bars as u32 + 1, beat as u32 + 1)
}

/// Bar and beat of a position, counted from one, in bars of four beats.
pub fn bar_beat_for(pulses: u64) -> (r: (u32, u32))
    requires
        bar_fits(pulses, 4),
    ensures
        r == bar_beat_at(pulses, 4),
{
    bar_beat_in(pulses, 4)
}

// Laws.

/// Every message keeps the window in shape.
pub proof fn messages_keep_well_formed(p: ParserView, now: u64, msg: Seq<u8>)
    requires
        p.well_formed(),
    ensures
        after_message(p, now, msg).well_formed(),
{
}

/// A start message rewinds and plays, whatever came before, and the next pulse
/// gives no interval.
pub proof fn start_rewinds_and_plays(p: ParserView, now: u64, rest: Seq<u8>, next: u64)
    requires
        p.well_formed(),
    ensures
        after_message(p, now, seq![0xFAu8] + rest).grid == (GridState {
            playing: true,
            pulses: 0,
            connected: p.grid.connected,
        }),
        interval_at(after_message(p, now, seq![0xFAu8] + rest), next) is None,
{
}

/// Continuing after a stop plays on from where it was.
pub proof fn continue_keeps_position(p: ParserView, stopped: u64, now: u64)
    requires
        p.well_formed(),
    ensures
        ({
            let s = after_message(p, stopped, seq![0xFCu8]);
            let c = after_message(s, now, seq![0xFBu8]);
            &&& !s.grid.playing
            &&& c.grid.playing
            &&& s.grid.pulses == p.grid.pulses
            &&& c.grid.pulses == p.grid.pulses
        }),
{
}

/// Only a clock pulse connects, and nothing disconnects.
pub proof fn clock_pulses_connect(p: ParserView, now: u64, msg: Seq<u8>)
    ensures
        after_message(p, now, msg).grid.connected <==> p.grid.connected || (msg.len() > 0
            && msg[0] == 0xF8),
{
}

/// After a start or continue message the tempo is taken from the pulses that
/// follow it alone.
pub proof fn tempo_is_taken_anew(p: ParserView, now: u64, kind: u8, first: u64, second: u64)
    requires
        p.well_formed(),
        kind == 0xFA || kind == 0xFB,
        0 < elapsed(first, second) < 1_000_000,
    ensures
        ({
            let s = after_message(p, now, seq![kind]);
            let a = after_message(s, first, seq![0xF8u8]);
            &&& s.recent() == Seq::<u64>::empty()
            &&& a.recent() == Seq::<u64>::empty()
            &&& after_message(a, second, seq![0xF8u8]).recent() == seq![
                elapsed(first, second) as u64,
            ]
        }),
{
    let s = after_message(p, now, seq![kind]);
    let a = after_message(s, first, seq![0xF8u8]);
    assert(s.recent() =~= Seq::empty());
    assert(a.recent() =~= Seq::empty());
    assert(after_message(a, second, seq![0xF8u8]).recent() =~= seq![
        elapsed(first, second) as u64,
    ]);
}

/// The state after clock pulses at the given times.
pub open spec fn after_pulses(p: ParserView, times: Seq<u64>) -> ParserView
    decreases times.len(),
{
    if times.len() == 0 {
        p
    } else {
        after_message(after_pulses(p, times.drop_last()), times.last(), seq![0xF8u8])
    }
}

/// The times between successive pulses, the first of them between `last` and
/// the first pulse, that are more than nothing and less than a second. The
/// clock counts microseconds and wraps around.
pub open spec fn intervals_between(last: Option<u64>, times: Seq<u64>) -> Seq<u64>
    decreases times.len(),
{
    if times.len() == 0 {
        Seq::empty()
    } else {
        let n = times.len();
        let before = if n >= 2 {
            Some(times[n - 2])
        } else {
            last
        };
        let earlier = intervals_between(last, times.drop_last());
        match before {
            Some(t) => {
                let dt = (times.last() - t) % 0x1_0000_0000_0000_0000;
                if 0 < dt < 1_000_000 {
                    earlier.push(dt as u64)
                } else {
                    earlier
                }
            },
            None => earlier,
        }
    }
}

proof fn lemma_pulses(p: ParserView, times: Seq<u64>)
    requires
        p.well_formed(),
    ensures
        ({
            let w = after_pulses(p, times);
            let ivs = intervals_between(p.last_clock_us, times);
            let n = ivs.len() as int;
            &&& w.well_formed()
            &&& w.last_clock_us == if times.len() > 0 {
                Some(times.last())
            } else {
                p.last_clock_us
            }
            &&& w.idx == (p.idx + n) % 24
            &&& w.count == if p.count + n < 24 {
                p.count + n
            } else {
                24
            }
            &&& forall|j: int|
                n - 24 <= j < n && 0 <= j ==> w.interval_us[(p.idx + j) % 24] == #[trigger] ivs[j]
            &&& forall|k: int|
                0 <= k < p.idx && p.idx + n < 24 ==> #[trigger] w.interval_us[k]
                    == p.interval_us[k]
        }),
    decreases times.len(),
{
    if times.len() > 0 {
        let t = times.drop_last();
        lemma_pulses(p, t);
        let u = after_pulses(p, t);
        let w = after_pulses(p, times);
        let now = times.last();
        let early = intervals_between(p.last_clock_us, t);
        let ivs = intervals_between(p.last_clock_us, times);
        if let Some(last) = u.last_clock_us {
            assert((now - last) % 0x1_0000_0000_0000_0000 == elapsed(last, now));
            if times.len() >= 2 {
                assert(times[times.len() - 2] == t.last());
            }
        }
        let n = ivs.len() as int;
        if ivs.len() > early.len() {
            assert(n == early.len() + 1);
            assert forall|j: int| n - 24 <= j < n && 0 <= j implies w.interval_us[(p.idx + j) % 24]
                == #[trigger] ivs[j] by {
                if j < n - 1 {
                    assert(ivs[j] == early[j]);
                    assert((p.idx + j) % 24 != (p.idx + n - 1) % 24);
                }
            }
        } else {
            assert(ivs == early);
        }
    }
}

/// The tempo is taken from the last intervals, up to as many as a beat has
/// pulses: after a start or continue message from all of them in their order,
/// and once there are 24 from the last 24, in whatever order, so that older
/// ones count no more.
pub proof fn tempo_follows_the_last_beat(p: ParserView, times: Seq<u64>)
    requires
        p.well_formed(),
    ensures
        ({
            let ivs = intervals_between(p.last_clock_us, times);
            let recent = after_pulses(p, times).recent();
            &&& p.count == 0 && ivs.len() <= 24 ==> recent == ivs
            &&& ivs.len() >= 24 ==> recent.len() == 24 && recent.to_multiset() == ivs.skip(
                ivs.len() - 24,
            ).to_multiset()
        }),
{
    lemma_pulses(p, times);
    let ivs = intervals_between(p.last_clock_us, times);
    let n = ivs.len() as int;
    let w = after_pulses(p, times);
    if p.count == 0 && n <= 24 {
        lemma_few(w, p.idx as int, ivs);
    }
    if n >= 24 {
        lemma_many(w, p.idx as int, ivs);
    }
}

/// Intervals that were put in from the start stand in their order.
proof fn lemma_few(w: ParserView, idx: int, ivs: Seq<u64>)
    requires
        idx == 0,
        ivs.len() <= 24,
        w.interval_us.len() == 24,
        w.count == ivs.len(),
        forall|j: int| 0 <= j < ivs.len() ==> w.interval_us[(idx + j) % 24] == #[trigger] ivs[j],
    ensures
        w.recent() == ivs,
{
    assert forall|j: int| 0 <= j < ivs.len() implies w.recent()[j] == #[trigger] ivs[j] by {
        assert((idx + j) % 24 == j % 24);
    }
    assert(w.recent() =~= ivs);
}

/// Of many intervals the last ones stand in the window, from its middle on.
proof fn lemma_many(w: ParserView, idx: int, ivs: Seq<u64>)
    requires
        0 <= idx,
        ivs.len() >= 24,
        w.interval_us.len() == 24,
        w.count == 24,
        forall|j: int|
            ivs.len() - 24 <= j < ivs.len() ==> w.interval_us[(idx + j) % 24] == #[trigger] ivs[j],
    ensures
        w.recent().len() == 24,
        w.recent().to_multiset() == ivs.skip(ivs.len() - 24).to_multiset(),
{
    let n = ivs.len() as int;
    let r = (idx + n) % 24;
    let win = w.interval_us;
    let t = ivs.skip(n - 24);
    assert(w.recent() =~= win);
    assert forall|i: int| 0 <= i < 24 implies #[trigger] t[i] == (win.skip(r) + win.take(r))[i] by {
        assert(win[(idx + (n - 24 + i)) % 24] == ivs[n - 24 + i]);
        lemma_turn(idx + n, i);
    }
    lemma_rotated(win, t, r);
}

proof fn lemma_turn(a: int, i: int)
    requires
        24 <= a,
        0 <= i < 24,
    ensures
        (a - 24 + i) % 24 == if i < 24 - a % 24 {
            a % 24 + i
        } else {
            a % 24 + i - 24
        },
{
}

proof fn lemma_rotated(win: Seq<u64>, t: Seq<u64>, r: int)
    requires
        win.len() == 24,
        t.len() == 24,
        0 <= r < 24,
        forall|i: int| 0 <= i < 24 ==> #[trigger] t[i] == (win.skip(r) + win.take(r))[i],
    ensures
        win.to_multiset() == t.to_multiset(),
{
    assert(t =~= win.skip(r) + win.take(r));
    assert(win =~= win.take(r) + win.skip(r));
    vstd::seq_lib::lemma_multiset_commutative(win.take(r), win.skip(r));
    vstd::seq_lib::lemma_multiset_commutative(win.skip(r), win.take(r));
    assert(win.to_multiset() =~= t.to_multiset());
}

/// Every pulse is counted once, whether or not it gives an interval, and
/// changes nothing else of the grid but that it connects.
pub proof fn pulses_are_counted(p: ParserView, times: Seq<u64>)
    ensures
        ({
            let g = after_pulses(p, times).grid;
            &&& g.pulses == (p.grid.pulses + times.len()) % 0x1_0000_0000_0000_0000
            &&& g.playing == p.grid.playing
            &&& times.len() > 0 ==> g.connected
        }),
    decreases times.len(),
{
    if times.len() > 0 {
        pulses_are_counted(p, times.drop_last());
    }
}

/// A stop message only stops. A position pointer only moves, to six pulses for
/// each sixteenth note of its number of fourteen bits, the low seven first.
/// Messages of other kinds, and a pointer that is cut short, do nothing.
pub proof fn other_messages_keep_the_rest(p: ParserView, now: u64, msg: Seq<u8>)
    requires
        msg.len() > 0,
    ensures
        ({
            let q = after_message(p, now, msg);
            let kept = q.last_clock_us == p.last_clock_us && q.interval_us == p.interval_us
                && q.idx == p.idx && q.count == p.count && q.grid.connected == p.grid.connected;
            &&& msg[0] == 0xFC ==> kept && !q.grid.playing && q.grid.pulses == p.grid.pulses
            &&& msg[0] == 0xF2 && msg.len() >= 3 ==> kept && q.grid.playing == p.grid.playing && (
            msg[1] < 128 && msg[2] < 128 ==> q.grid.pulses == 6 * (msg[1] + 128 * msg[2]))
            &&& msg[0] == 0xF2 && msg.len() < 3 ==> q == p
            &&& msg[0] != 0xF2 && msg[0] != 0xF8 && msg[0] != 0xFA && msg[0] != 0xFB && msg[0]
                != 0xFC ==> q == p
        }),
{
}

/// The tempo is to be taken anew exactly when a pulse has added an interval.
pub proof fn tempo_changes_with_the_window(p: ParserView, now: u64, msg: Seq<u8>)
    requires
        p.well_formed(),
    ensures
        changes_tempo(p, now, msg) <==> msg.len() > 0 && msg[0] == 0xF8 && (
        p.last_clock_us matches Some(last) && {
            let dt = (now - last) % 0x1_0000_0000_0000_0000;
            0 < dt < 1_000_000
        }),
        changes_tempo(p, now, msg) ==> after_message(p, now, msg).count > 0,
{
    if let Some(last) = p.last_clock_us {
        assert((now - last) % 0x1_0000_0000_0000_0000 == elapsed(last, now));
    }
}

/// Bar and beat tell how many whole beats have passed.
pub proof fn bar_and_beat_tell_position(pulses: u64, beats_per_bar: int)
    requires
        0 < beats_per_bar < u32::MAX,
        pulses as int / 24 / beats_per_bar < u32::MAX,
    ensures
        ({
            let r = bar_beat_at(pulses, beats_per_bar);
            &&& r.0 >= 1
            &&& 1 <= r.1 <= beats_per_bar
            &&& (r.0 - 1) * beats_per_bar + (r.1 - 1) == pulses as int / 24
        }),
{
    let beats = pulses as int / 24;
    vstd::arithmetic::div_mod::lemma_fundamental_div_mod(beats, beats_per_bar);
    vstd::arithmetic::div_mod::lemma_mod_bound(beats, beats_per_bar);
    vstd::arithmetic::div_mod::lemma_div_pos_is_pos(beats, beats_per_bar);
    vstd::arithmetic::div_mod::lemma_small_mod((beats / beats_per_bar) as nat, 0x1_0000_0000);
    assert(beats_per_bar * (beats / beats_per_bar) == (beats / beats_per_bar) * beats_per_bar)
        by (nonlinear_arith);
}

/// A position pointer counts sixteenth notes: every sixteen of them are a bar
/// of four beats.
pub proof fn sixteen_sixteenths_are_a_bar(lsb: u8, msb: u8)
    ensures
        bar_beat_at(pointer_pulses(lsb, msb) as u64, 4).0 == ((msb % 128) * 128 + lsb % 128) / 16
            + 1,
{
}

/// A clock that has heard nothing is not connected and does not play. It stands
/// at the start and has no interval to take a tempo from.
pub proof fn a_clock_begins_quiet()
    ensures
        quiet().well_formed(),
        !quiet().grid.connected && !quiet().grid.playing && quiet().grid.pulses == 0,
        quiet().recent().len() == 0,
        quiet().last_clock_us is None,
{
}

} // verus!
