//! Heartbeats: ticks at an interval, given to the one who waits for them and otherwise skipped.
//!
//! Times are nanoseconds on a clock that never goes back.
use vstd::prelude::*;

use crate::answers::{text_answer, text_result};
use crate::json::{
    filled, filled_to, lemma_entries_held, member, ordered, pretty, render_pretty, Json, JsonView,
};
use crate::text::{debug_string, debug_form, same_text};
use crate::tool_args::{
    HeartbeatInterval, HeartbeatName, HeartbeatWait, HEARTBEAT_MAX_INTERVAL_SECONDS,
    HEARTBEAT_MAX_WAIT_SECONDS,
};

verus! {

pub const NANOS_PER_SECOND: u128 = 1000000000;

pub const NANOS_PER_MILLI: u128 = 1000000;

/// No clock goes further than this: it is more than two to the 63 seconds.
pub const END_OF_TIME: u128 = 9300000000000000000000000000;

/// A heartbeat: its interval, when it ticks next, and how many ticks were given and skipped.
#[derive(Clone, Copy, Debug, PartialEq, Eq, Structural)]
pub struct Heartbeat {
    pub interval_seconds: u64,
    pub next_tick: u128,
    pub delivered_ticks: u64,
    pub skipped_ticks: u64,
    pub waiting: bool,
    pub generation: u64,
}

/// The sum of two counts, or the highest count where it is more than that.
pub open spec fn saturated(a: int, b: int) -> int {
    if a + b <= u64::MAX {
        a + b
    } else {
        u64::MAX as int
    }
}

impl Heartbeat {
    /// Whether the interval is between a second and a day, and the next tick is within reach.
    pub open spec fn well_formed(self) -> bool {
        &&& 1 <= self.interval_seconds <= 86400
        &&& self.next_tick <= END_OF_TIME + 86400 * NANOS_PER_SECOND
    }

    /// The interval in nanoseconds.
    pub open spec fn interval(self) -> int {
        self.interval_seconds * NANOS_PER_SECOND
    }

    pub open spec fn started(interval_seconds: u64, now: u128, generation: u64) -> Heartbeat {
        Heartbeat {
            interval_seconds,
            next_tick: (now + interval_seconds * NANOS_PER_SECOND) as u128,
            delivered_ticks: 0,
            skipped_ticks: 0,
            waiting: false,
            generation,
        }
    }

    /// How many ticks are due by now.
    pub open spec fn due(self, now: u128) -> int {
        if now < self.next_tick {
            0
        } else {
            (now - self.next_tick) / self.interval() + 1
        }
    }

    /// This heartbeat once the ticks that are due were skipped.
    pub open spec fn caught_up(self, now: u128) -> Heartbeat {
        Heartbeat {
            next_tick: (self.next_tick + self.interval() * self.due(now)) as u128,
            skipped_ticks: saturated(self.skipped_ticks as int, self.due(now)) as u64,
            ..self
        }
    }

    /// A heartbeat that first ticks after one interval.
    pub fn new(interval_seconds: u64, now: u128, generation: u64) -> (heartbeat: Heartbeat)
        requires
            1 <= interval_seconds <= 86400,
            now <= END_OF_TIME,
        ensures
            heartbeat == Heartbeat::started(interval_seconds, now, generation),
            heartbeat.well_formed(),
    {
        Heartbeat {
            interval_seconds,
            next_tick: now + interval_seconds as u128 * NANOS_PER_SECOND,
            delivered_ticks: 0,
            skipped_ticks: 0,
            waiting: false,
            generation,
        }
    }
}

/// Skipping leaves the next tick in the future, at most one interval ahead.
pub proof fn lemma_caught_up(heartbeat: Heartbeat, now: u128)
    requires
        heartbeat.well_formed(),
        now <= END_OF_TIME,
    ensures
        0 <= heartbeat.due(now),
        heartbeat.due(now) <= u64::MAX,
        now < heartbeat.next_tick + heartbeat.interval() * heartbeat.due(now),
        now >= heartbeat.next_tick ==> heartbeat.next_tick + heartbeat.interval() * heartbeat.due(now)
            <= now + heartbeat.interval(),
        now >= heartbeat.next_tick ==> heartbeat.due(now) >= 1,
        heartbeat.interval() * heartbeat.due(now) <= now + heartbeat.interval(),
        heartbeat.caught_up(now).well_formed(),
        heartbeat.caught_up(now).next_tick == heartbeat.next_tick + heartbeat.interval()
            * heartbeat.due(now),
        heartbeat.caught_up(now).skipped_ticks == saturated(
            heartbeat.skipped_ticks as int,
            heartbeat.due(now),
        ),
{
    let interval = heartbeat.interval();
    assert(1000000000 <= interval <= 86400 * 1000000000);
    if now >= heartbeat.next_tick {
        let overdue = now - heartbeat.next_tick;
        let whole = overdue / interval;
        vstd::arithmetic::div_mod::lemma_fundamental_div_mod(overdue, interval);
        vstd::arithmetic::div_mod::lemma_mod_bound(overdue, interval);
        assert(interval * (whole + 1) == interval * whole + interval) by (nonlinear_arith);
        assert(0 <= whole <= overdue / 1000000000) by {
            vstd::arithmetic::div_mod::lemma_div_is_ordered_by_denominator(
                overdue,
                1000000000,
                interval,
            );
            vstd::arithmetic::div_mod::lemma_div_pos_is_pos(overdue, interval);
        }
        assert(overdue / 1000000000 <= 9300000000000000000);
    } else {
        assert(interval * 0 == 0) by (nonlinear_arith);
    }
}

/// Skips the ticks that are due by now and says how many they are.
pub fn skip_missed_heartbeat_ticks(heartbeat: &mut Heartbeat, now: u128) -> (missed: u64)
    requires
        old(heartbeat).well_formed(),
        now <= END_OF_TIME,
    ensures
        *final(heartbeat) == old(heartbeat).caught_up(now),
        missed == old(heartbeat).due(now),
        final(heartbeat).well_formed(),
        now < final(heartbeat).next_tick,
{
    proof {
        lemma_caught_up(*heartbeat, now);
    }
    if now < heartbeat.next_tick {
        proof {
            let same = heartbeat.interval() * 0;
            assert(same == 0) by (nonlinear_arith)
                requires
                    same == heartbeat.interval() * 0,
            ;
        }
        return 0;
    }
    let interval: u128 = heartbeat.interval_seconds as u128 * NANOS_PER_SECOND;
    let missed: u128 = (now - heartbeat.next_tick) / interval + 1;
    heartbeat.next_tick = heartbeat.next_tick + interval * missed;
    heartbeat.skipped_ticks = heartbeat.skipped_ticks.saturating_add(missed as u64);
    missed as u64
}

/// Skipping leaves nothing to skip: ticks are never queued.
pub proof fn law_skipped_ticks_are_not_queued(heartbeat: Heartbeat, now: u128)
    requires
        heartbeat.well_formed(),
        now <= END_OF_TIME,
    ensures
        heartbeat.caught_up(now).due(now) == 0,
        heartbeat.caught_up(now).caught_up(now) == heartbeat.caught_up(now),
        now < heartbeat.caught_up(now).next_tick,
{
    lemma_caught_up(heartbeat, now);
    lemma_caught_up(heartbeat.caught_up(now), now);
    let interval = heartbeat.interval();
    assert(interval * 0 == 0) by (nonlinear_arith);
}

/// The heartbeat of a session under a name.
#[derive(Debug)]
pub struct HeartbeatEntry {
    pub session_id: String,
    pub name: String,
    pub heartbeat: Heartbeat,
}

/// A session and a name.
pub type HeartbeatKey = (Seq<char>, Seq<char>);

impl HeartbeatEntry {
    pub open spec fn key(self) -> HeartbeatKey {
        (self.session_id@, self.name@)
    }
}

/// The heartbeats of all sessions, each under its session and its name.
#[derive(Debug)]
pub struct Heartbeats {
    entries: Vec<HeartbeatEntry>,
}

/// The place of the first heartbeat under a key; the length where there is none.
spec fn heartbeat_place(entries: Seq<HeartbeatEntry>, key: HeartbeatKey) -> int
    decreases entries.len(),
{
    if entries.len() == 0 || entries[0].key() == key {
        0
    } else {
        1 + heartbeat_place(entries.drop_first(), key)
    }
}

proof fn lemma_heartbeat_place(entries: Seq<HeartbeatEntry>, key: HeartbeatKey)
    ensures
        0 <= heartbeat_place(entries, key) <= entries.len(),
        heartbeat_place(entries, key) < entries.len() ==> entries[heartbeat_place(
            entries,
            key,
        )].key() == key,
        forall|i: int|
            0 <= i < heartbeat_place(entries, key) ==> (#[trigger] entries[i]).key() != key,
    decreases entries.len(),
{
    if entries.len() > 0 && entries[0].key() != key {
        let rest = entries.drop_first();
        lemma_heartbeat_place(rest, key);
        assert forall|i: int| 0 <= i < heartbeat_place(entries, key) implies (#[trigger] entries[i]).key()
            != key by {
            if i > 0 {
                assert(entries[i] == rest[i - 1]);
            }
        }
    }
}

impl View for Heartbeats {
    type V = Map<HeartbeatKey, Heartbeat>;

    closed spec fn view(&self) -> Map<HeartbeatKey, Heartbeat> {
        Map::new(
            |key: HeartbeatKey| heartbeat_place(self.entries@, key) < self.entries@.len(),
            |key: HeartbeatKey| self.entries@[heartbeat_place(self.entries@, key)].heartbeat,
        )
    }
}

/// The error where a heartbeat is needed and there is none.
pub open spec fn heartbeat_error(name: Seq<char>, problem: Seq<char>) -> Seq<char> {
    "heartbeat "@ + debug_form(name) + problem
}

fn heartbeat_problem(name: &str, problem: &str) -> (message: String)
    ensures
        message@ == heartbeat_error(name@, problem@),
{
    let mut message: String = "heartbeat ".to_owned();
    message.append(debug_string(name).as_str());
    message.append(problem);
    message
}

/// How long it is until the next tick, in whole milliseconds.
pub open spec fn remaining_millis(heartbeat: Heartbeat, now: u128) -> int {
    let remaining = if heartbeat.next_tick > now {
        heartbeat.next_tick - now
    } else {
        0
    };
    let millis = remaining / NANOS_PER_MILLI as int;
    if millis <= u64::MAX {
        millis
    } else {
        u64::MAX as int
    }
}

/// What is answered of a heartbeat.
pub open spec fn heartbeat_answer(
    name: Seq<char>,
    status: Seq<char>,
    heartbeat: Heartbeat,
    now: u128,
) -> JsonView {
    text_answer(
        pretty(
            JsonView::object()
                .with("name"@, JsonView::Text(name))
                .with("status"@, JsonView::Text(status))
                .with("interval_seconds"@, JsonView::Int(heartbeat.interval_seconds as int))
                .with("next_tick_in_ms"@, JsonView::Int(remaining_millis(heartbeat, now)))
                .with("delivered_ticks"@, JsonView::Int(heartbeat.delivered_ticks as int))
                .with("skipped_ticks"@, JsonView::Int(heartbeat.skipped_ticks as int)),
            0,
        ),
    )
}

/// What is answered of a heartbeat that was stopped.
pub open spec fn stopped_answer(name: Seq<char>, heartbeat: Heartbeat) -> JsonView {
    text_answer(
        pretty(
            JsonView::object()
                .with("name"@, JsonView::Text(name))
                .with("status"@, JsonView::Text("stopped"@))
                .with("delivered_ticks"@, JsonView::Int(heartbeat.delivered_ticks as int))
                .with("skipped_ticks"@, JsonView::Int(heartbeat.skipped_ticks as int)),
            0,
        ),
    )
}

/// What is answered of a heartbeat.
pub fn heartbeat_result(name: &str, status: &str, heartbeat: &Heartbeat, now: u128) -> (json: Json)
    ensures
        json@ == heartbeat_answer(name@, status@, *heartbeat, now),
        ordered(json@),
{
    let remaining: u128 = heartbeat.next_tick.saturating_sub(now);
    let millis: u128 = remaining / NANOS_PER_MILLI;
    let shown: u64 = if millis <= u64::MAX as u128 {
        millis as u64
    } else {
        u64::MAX
    };
    let value: Json = Json::object()
        .with("name", Json::text(name))
        .with("status", Json::text(status))
        .with("interval_seconds", Json::Unsigned(heartbeat.interval_seconds))
        .with("next_tick_in_ms", Json::Unsigned(shown))
        .with("delivered_ticks", Json::Unsigned(heartbeat.delivered_ticks))
        .with("skipped_ticks", Json::Unsigned(heartbeat.skipped_ticks));
    text_result(render_pretty(&value).as_str())
}

/// What someone who waits for a tick holds: the tick, the start that it belongs to, and how long
/// to wait, in nanoseconds.
#[derive(Clone, Copy, Debug, PartialEq, Eq, Structural)]
pub struct Waiter {
    pub target: u128,
    pub generation: u64,
    pub wait_for: u128,
}

/// How long someone waits: until the tick, and no longer than allowed.
pub open spec fn waiting_time(target: u128, now: u128, max_wait_seconds: u64) -> int {
    let longest = max_wait_seconds * NANOS_PER_SECOND;
    if target - now < longest {
        if target > now {
            target - now
        } else {
            0
        }
    } else {
        longest
    }
}

/// What comes of a wait: the heartbeat after it, and whether it ticked. The tick is given only if
/// it is due and still the next.
pub open spec fn waited(heartbeat: Heartbeat, target: u128, now: u128) -> (Heartbeat, bool) {
    let idle = Heartbeat { waiting: false, ..heartbeat };
    if now >= target && idle.next_tick == target {
        let ticked = Heartbeat {
            delivered_ticks: saturated(idle.delivered_ticks as int, 1) as u64,
            next_tick: (idle.next_tick + idle.interval()) as u128,
            ..idle
        };
        (ticked.caught_up(now), true)
    } else {
        (idle, false)
    }
}

/// A heartbeat for whose next tick someone begins to wait.
pub open spec fn awaited(heartbeat: Heartbeat, now: u128) -> Heartbeat {
    Heartbeat { waiting: true, ..heartbeat.caught_up(now) }
}

/// A heartbeat once it was asked how it stands: a tick that someone waits for is left to them.
pub open spec fn looked_at(heartbeat: Heartbeat, now: u128) -> Heartbeat {
    if heartbeat.waiting {
        heartbeat
    } else {
        heartbeat.caught_up(now)
    }
}

/// The generation of a heartbeat that is started under a key.
pub open spec fn next_generation(all: Map<HeartbeatKey, Heartbeat>, key: HeartbeatKey) -> u64 {
    if all.dom().contains(key) {
        saturated(all[key].generation as int, 1) as u64
    } else {
        1
    }
}

/// What comes of starting a heartbeat: the answer, and the heartbeats after it.
pub open spec fn start_of(
    all: Map<HeartbeatKey, Heartbeat>,
    key: HeartbeatKey,
    interval_seconds: u64,
    now: u128,
) -> (JsonView, Map<HeartbeatKey, Heartbeat>) {
    let heartbeat = Heartbeat::started(interval_seconds, now, next_generation(all, key));
    (heartbeat_answer(key.1, "started"@, heartbeat, now), all.insert(key, heartbeat))
}

/// What comes of beginning to wait: what to wait for, or why not, and the heartbeats after it.
pub open spec fn wait_begun(
    all: Map<HeartbeatKey, Heartbeat>,
    key: HeartbeatKey,
    max_wait_seconds: u64,
    now: u128,
) -> (Result<Waiter, Seq<char>>, Map<HeartbeatKey, Heartbeat>) {
    if !all.dom().contains(key) {
        (Err(heartbeat_error(key.1, " is not running; call heartbeat_start first"@)), all)
    } else if all[key].waiting {
        (Err(heartbeat_error(key.1, " already has an active waiter"@)), all)
    } else {
        let heartbeat = awaited(all[key], now);
        (
            Ok(
                Waiter {
                    target: heartbeat.next_tick,
                    generation: heartbeat.generation,
                    wait_for: waiting_time(heartbeat.next_tick, now, max_wait_seconds) as u128,
                },
            ),
            all.insert(key, heartbeat),
        )
    }
}

/// What comes of the end of a wait: whether it ticked and the answer, or why there is none, and the
/// heartbeats after it.
pub open spec fn wait_ended(
    all: Map<HeartbeatKey, Heartbeat>,
    key: HeartbeatKey,
    waiter: Waiter,
    now: u128,
) -> (Result<(bool, JsonView), Seq<char>>, Map<HeartbeatKey, Heartbeat>) {
    if !all.dom().contains(key) {
        (Err(heartbeat_error(key.1, " was stopped while waiting"@)), all)
    } else if all[key].generation != waiter.generation {
        (Err(heartbeat_error(key.1, " was restarted while waiting"@)), all)
    } else {
        let (heartbeat, ticked) = waited(all[key], waiter.target, now);
        let status = if ticked {
            "tick"@
        } else {
            "waiting"@
        };
        (
            Ok((ticked, heartbeat_answer(key.1, status, heartbeat, now))),
            all.insert(key, heartbeat),
        )
    }
}

/// What is told of a heartbeat, and the heartbeats after it.
pub open spec fn status_of(all: Map<HeartbeatKey, Heartbeat>, key: HeartbeatKey, now: u128) -> (
    Result<JsonView, Seq<char>>,
    Map<HeartbeatKey, Heartbeat>,
) {
    if !all.dom().contains(key) {
        (Err(heartbeat_error(key.1, " is not running"@)), all)
    } else {
        let heartbeat = looked_at(all[key], now);
        let status = if all[key].waiting {
            "waiting"@
        } else {
            "idle"@
        };
        (Ok(heartbeat_answer(key.1, status, heartbeat, now)), all.insert(key, heartbeat))
    }
}

/// What comes of stopping a heartbeat: the answer, or why there is none, and the heartbeats after it.
pub open spec fn stop_of(all: Map<HeartbeatKey, Heartbeat>, key: HeartbeatKey) -> (
    Result<JsonView, Seq<char>>,
    Map<HeartbeatKey, Heartbeat>,
) {
    if all.dom().contains(key) {
        (Ok(stopped_answer(key.1, all[key])), all.remove(key))
    } else {
        (Err(heartbeat_error(key.1, " is not running"@)), all)
    }
}

/// What a result says: an answer, or an error.
pub open spec fn answer_view(result: Result<Json, String>) -> Result<JsonView, Seq<char>> {
    match result {
        Ok(json) => Ok(json@),
        Err(message) => Err(message@),
    }
}

/// Whether no two heartbeats have one key.
spec fn distinct_keys(entries: Seq<HeartbeatEntry>) -> bool {
    forall|i: int, j: int|
        0 <= i < j < entries.len() ==> (#[trigger] entries[i]).key() != (#[trigger] entries[j]).key()
}

proof fn lemma_place_is(entries: Seq<HeartbeatEntry>, key: HeartbeatKey, place: int)
    requires
        0 <= place <= entries.len(),
        place < entries.len() ==> entries[place].key() == key,
        forall|i: int| 0 <= i < place ==> (#[trigger] entries[i]).key() != key,
    ensures
        heartbeat_place(entries, key) == place,
{
    lemma_heartbeat_place(entries, key);
    let found = heartbeat_place(entries, key);
    if found < place {
        assert(entries[found].key() != key);
    } else if place < found {
        assert(entries[place].key() != key);
    }
}

impl Heartbeats {
    /// Whether each key has one heartbeat, and each heartbeat is in order.
    pub closed spec fn well_formed(&self) -> bool {
        &&& distinct_keys(self.entries@)
        &&& forall|i: int|
            0 <= i < self.entries@.len() ==> (#[trigger] self.entries@[i]).heartbeat.well_formed()
    }

    /// No heartbeats.
    pub fn new() -> (all: Heartbeats)
        ensures
            all.well_formed(),
            all@ == Map::<HeartbeatKey, Heartbeat>::empty(),
    {
        let all: Heartbeats = Heartbeats { entries: Vec::new() };
        proof {
            assert(all@ =~= Map::<HeartbeatKey, Heartbeat>::empty());
        }
        all
    }

    fn find(&self, session_id: &str, name: &str) -> (place: usize)
        ensures
            place == heartbeat_place(self.entries@, (session_id@, name@)),
            place <= self.entries@.len(),
    {
        let ghost key = (session_id@, name@);
        let mut place: usize = 0;
        while place < self.entries.len() && !(same_text(
            self.entries[place].session_id.as_str(),
            session_id,
        ) && same_text(self.entries[place].name.as_str(), name))
            invariant
                key == (session_id@, name@),
                place <= self.entries@.len(),
                forall|i: int| 0 <= i < place ==> (#[trigger] self.entries@[i]).key() != key,
            decreases self.entries@.len() - place,
        {
            place = place + 1;
        }
        proof {
            lemma_place_is(self.entries@, key, place as int);
        }
        place
    }

    /// The heartbeat of a session under a name.
    pub fn get(&self, session_id: &str, name: &str) -> (heartbeat: Option<Heartbeat>)
        requires
            self.well_formed(),
        ensures
            match heartbeat {
                Some(heartbeat) => self@.dom().contains((session_id@, name@)) && self@[(
                    session_id@,
                    name@,
                )] == heartbeat && heartbeat.well_formed(),
                None => !self@.dom().contains((session_id@, name@)),
            },
    {
        let place: usize = self.find(session_id, name);
        if place < self.entries.len() {
            Some(self.entries[place].heartbeat)
        } else {
            None
        }
    }

    fn put(&mut self, session_id: &str, name: &str, heartbeat: Heartbeat)
        requires
            old(self).well_formed(),
            heartbeat.well_formed(),
        ensures
            final(self).well_formed(),
            final(self)@ == old(self)@.insert((session_id@, name@), heartbeat),
    {
        let ghost key = (session_id@, name@);
        let ghost before = self.entries@;
        let place: usize = self.find(session_id, name);
        let entry: HeartbeatEntry = HeartbeatEntry {
            session_id: session_id.to_owned(),
            name: name.to_owned(),
            heartbeat,
        };
        proof {
            lemma_heartbeat_place(before, key);
        }
        if place < self.entries.len() {
            self.entries[place] = entry;
        } else {
            self.entries.push(entry);
        }
        proof {
            let after = self.entries@;
            assert forall|i: int, j: int| 0 <= i < j < after.len() implies (#[trigger] after[i]).key()
                != (#[trigger] after[j]).key() by {
                if j < before.len() {
                    assert(before[i].key() != before[j].key());
                } else {
                    assert(before[i].key() != key);
                }
            }
            assert forall|other: HeartbeatKey| #[trigger] self@.dom().contains(other) <==> old(
                self,
            )@.insert(key, heartbeat).dom().contains(other) by {
                lemma_put_place(before, after, key, place as int, other);
            }
            assert forall|other: HeartbeatKey| self@.dom().contains(other) implies #[trigger] self@[other]
                == old(self)@.insert(key, heartbeat)[other] by {
                lemma_put_place(before, after, key, place as int, other);
                lemma_heartbeat_place(before, other);
            }
            assert(self@ =~= old(self)@.insert(key, heartbeat));
        }
    }

    fn take(&mut self, session_id: &str, name: &str) -> (heartbeat: Option<Heartbeat>)
        requires
            old(self).well_formed(),
        ensures
            final(self).well_formed(),
            match heartbeat {
                Some(heartbeat) => old(self)@.dom().contains((session_id@, name@)) && old(self)@[(
                    session_id@,
                    name@,
                )] == heartbeat && final(self)@ == old(self)@.remove((session_id@, name@)),
                None => !old(self)@.dom().contains((session_id@, name@)) && final(self)@ == old(
                    self,
                )@,
            },
    {
        let ghost key = (session_id@, name@);
        let ghost before = self.entries@;
        let place: usize = self.find(session_id, name);
        if place >= self.entries.len() {
            return None;
        }
        proof {
            lemma_heartbeat_place(before, key);
        }
        let entry: HeartbeatEntry = self.entries.remove(place);
        proof {
            let after = self.entries@;
            assert forall|i: int| 0 <= i < after.len() implies #[trigger] after[i] == before[if i
                < place {
                i
            } else {
                i + 1
            }] by {}
            assert forall|other: HeartbeatKey| #[trigger] self@.dom().contains(other) <==> old(
                self,
            )@.remove(key).dom().contains(other) by {
                lemma_take_place(before, after, key, place as int, other);
            }
            assert forall|other: HeartbeatKey| self@.dom().contains(other) implies #[trigger] self@[other]
                == old(self)@.remove(key)[other] by {
                lemma_take_place(before, after, key, place as int, other);
                lemma_heartbeat_place(before, other);
            }
            assert(self@ =~= old(self)@.remove(key));
        }
        Some(entry.heartbeat)
    }
}

proof fn lemma_put_place(
    before: Seq<HeartbeatEntry>,
    after: Seq<HeartbeatEntry>,
    key: HeartbeatKey,
    place: int,
    other: HeartbeatKey,
)
    requires
        place == heartbeat_place(before, key),
        after.len() == if place < before.len() {
            before.len()
        } else {
            before.len() + 1
        },
        after[place].key() == key,
        forall|i: int| 0 <= i < before.len() && i != place ==> after[i] == before[i],
    ensures
        heartbeat_place(after, other) == if other == key {
            place
        } else if heartbeat_place(before, other) < before.len() {
            heartbeat_place(before, other)
        } else {
            after.len() as int
        },
{
    lemma_heartbeat_place(before, key);
    lemma_heartbeat_place(before, other);
    let was = heartbeat_place(before, other);
    if other == key {
        lemma_place_is(after, key, place);
    } else if was < before.len() {
        lemma_place_is(after, other, was);
    } else {
        lemma_place_is(after, other, after.len() as int);
    }
}

proof fn lemma_take_place(
    before: Seq<HeartbeatEntry>,
    after: Seq<HeartbeatEntry>,
    key: HeartbeatKey,
    place: int,
    other: HeartbeatKey,
)
    requires
        distinct_keys(before),
        place == heartbeat_place(before, key),
        place < before.len(),
        after == before.remove(place),
    ensures
        heartbeat_place(after, other) == if other == key {
            after.len() as int
        } else if heartbeat_place(before, other) < place {
            heartbeat_place(before, other)
        } else {
            heartbeat_place(before, other) - 1
        },
{
    lemma_heartbeat_place(before, key);
    lemma_heartbeat_place(before, other);
    let was = heartbeat_place(before, other);
    if other == key {
        assert forall|i: int| 0 <= i < after.len() implies (#[trigger] after[i]).key() != key by {
            if i < place {
                assert(after[i] == before[i]);
            } else {
                assert(after[i] == before[i + 1]);
                assert(before[place].key() != before[i + 1].key());
            }
        }
        lemma_place_is(after, key, after.len() as int);
    } else {
        let now = if was < place {
            was
        } else {
            was - 1
        };
        assert(was != place);
        assert forall|i: int| 0 <= i < now implies (#[trigger] after[i]).key() != other by {
            if i < place {
                assert(after[i] == before[i]);
            } else {
                assert(after[i] == before[i + 1]);
            }
        }
        if now < after.len() {
            if now < place {
                assert(after[now] == before[now]);
            } else {
                assert(after[now] == before[now + 1]);
            }
        }
        lemma_place_is(after, other, now);
    }
}

/// The name of a heartbeat, or that of the one without a name.
pub fn heartbeat_name(name: Option<&HeartbeatName>) -> (text: String)
    ensures
        text@ == match name {
            Some(name) => name@,
            None => "default"@,
        },
{
    match name {
        Some(name) => name.as_str().to_owned(),
        None => "default".to_owned(),
    }
}

/// How many seconds to wait for a tick, or as many as one may.
pub fn heartbeat_max_wait(wait: Option<HeartbeatWait>) -> (seconds: u64)
    ensures
        seconds == match wait {
            Some(wait) => wait.spec_seconds(),
            None => HEARTBEAT_MAX_WAIT_SECONDS,
        },
        1 <= seconds <= HEARTBEAT_MAX_WAIT_SECONDS,
{
    match wait {
        Some(wait) => wait.seconds(),
        None => HEARTBEAT_MAX_WAIT_SECONDS,
    }
}

impl Heartbeats {
    /// Starts a heartbeat, in place of one that the session has under the name.
    pub fn start(
        &mut self,
        session_id: &str,
        name: &str,
        interval: HeartbeatInterval,
        now: u128,
    ) -> (json: Json)
        requires
            old(self).well_formed(),
            now <= END_OF_TIME,
        ensures
            final(self).well_formed(),
            (json@, final(self)@) == start_of(
                old(self)@,
                (session_id@, name@),
                interval.spec_seconds(),
                now,
            ),
            ordered(json@),
    {
        let generation: u64 = match self.get(session_id, name) {
            Some(heartbeat) => heartbeat.generation.saturating_add(1),
            None => 1,
        };
        let heartbeat: Heartbeat = Heartbeat::new(interval.seconds(), now, generation);
        self.put(session_id, name, heartbeat);
        heartbeat_result(name, "started", &heartbeat, now)
    }

    /// Begins to wait for a tick. Ticks that came while no one waited are skipped.
    pub fn begin_wait(
        &mut self,
        session_id: &str,
        name: &str,
        max_wait_seconds: u64,
        now: u128,
    ) -> (result: Result<Waiter, String>)
        requires
            old(self).well_formed(),
            now <= END_OF_TIME,
        ensures
            final(self).well_formed(),
            (
                match result {
                    Ok(waiter) => Ok(waiter),
                    Err(message) => Err(message@),
                },
                final(self)@,
            ) == wait_begun(old(self)@, (session_id@, name@), max_wait_seconds, now),
            result matches Ok(waiter) ==> waiter.wait_for == waiting_time(
                waiter.target,
                now,
                max_wait_seconds,
            ),
    {
        let mut heartbeat: Heartbeat = match self.get(session_id, name) {
            Some(heartbeat) => heartbeat,
            None => {
                return Err(
                    heartbeat_problem(name, " is not running; call heartbeat_start first"),
                );
            },
        };
        if heartbeat.waiting {
            return Err(heartbeat_problem(name, " already has an active waiter"));
        }
        skip_missed_heartbeat_ticks(&mut heartbeat, now);
        heartbeat.waiting = true;
        let longest: u128 = max_wait_seconds as u128 * NANOS_PER_SECOND;
        let until: u128 = heartbeat.next_tick.saturating_sub(now);
        let wait_for: u128 = if until < longest {
            until
        } else {
            longest
        };
        self.put(session_id, name, heartbeat);
        Ok(
            Waiter {
                target: heartbeat.next_tick,
                generation: heartbeat.generation,
                wait_for,
            },
        )
    }

    /// Ends a wait: the tick is given if it is due; ticks that came after it are skipped. Also says
    /// whether it ticked.
    pub fn end_wait(&mut self, session_id: &str, name: &str, waiter: Waiter, now: u128) -> (result: Result<
        (bool, Json),
        String,
    >)
        requires
            old(self).well_formed(),
            now <= END_OF_TIME,
        ensures
            final(self).well_formed(),
            (
                match result {
                    Ok((ticked, json)) => Ok((ticked, json@)),
                    Err(message) => Err(message@),
                },
                final(self)@,
            ) == wait_ended(old(self)@, (session_id@, name@), waiter, now),
            result matches Ok((_, json)) ==> ordered(json@),
    {
        let mut heartbeat: Heartbeat = match self.get(session_id, name) {
            Some(heartbeat) => heartbeat,
            None => {
                return Err(heartbeat_problem(name, " was stopped while waiting"));
            },
        };
        if heartbeat.generation != waiter.generation {
            return Err(heartbeat_problem(name, " was restarted while waiting"));
        }
        heartbeat.waiting = false;
        let ticked: bool = now >= waiter.target && heartbeat.next_tick == waiter.target;
        if ticked {
            heartbeat.delivered_ticks = heartbeat.delivered_ticks.saturating_add(1);
            heartbeat.next_tick = heartbeat.next_tick + heartbeat.interval_seconds as u128
                * NANOS_PER_SECOND;
            skip_missed_heartbeat_ticks(&mut heartbeat, now);
        }
        self.put(session_id, name, heartbeat);
        let status: &str = if ticked {
            "tick"
        } else {
            "waiting"
        };
        Ok((ticked, heartbeat_result(name, status, &heartbeat, now)))
    }

    /// Says how a heartbeat stands. Ticks that came while no one waited are skipped.
    pub fn status(&mut self, session_id: &str, name: &str, now: u128) -> (result: Result<Json, String>)
        requires
            old(self).well_formed(),
            now <= END_OF_TIME,
        ensures
            final(self).well_formed(),
            (answer_view(result), final(self)@) == status_of(old(self)@, (session_id@, name@), now),
            result matches Ok(json) ==> ordered(json@),
    {
        let mut heartbeat: Heartbeat = match self.get(session_id, name) {
            Some(heartbeat) => heartbeat,
            None => {
                return Err(heartbeat_problem(name, " is not running"));
            },
        };
        if !heartbeat.waiting {
            skip_missed_heartbeat_ticks(&mut heartbeat, now);
        }
        self.put(session_id, name, heartbeat);
        let status: &str = if heartbeat.waiting {
            "waiting"
        } else {
            "idle"
        };
        Ok(heartbeat_result(name, status, &heartbeat, now))
    }

    /// Stops a heartbeat.
    pub fn stop(&mut self, session_id: &str, name: &str) -> (result: Result<Json, String>)
        requires
            old(self).well_formed(),
        ensures
            final(self).well_formed(),
            (answer_view(result), final(self)@) == stop_of(old(self)@, (session_id@, name@)),
            result matches Ok(json) ==> ordered(json@),
    {
        match self.take(session_id, name) {
            Some(heartbeat) => {
                let value: Json = Json::object()
                    .with("name", Json::text(name))
                    .with("status", Json::text("stopped"))
                    .with("delivered_ticks", Json::Unsigned(heartbeat.delivered_ticks))
                    .with("skipped_ticks", Json::Unsigned(heartbeat.skipped_ticks));
                Ok(text_result(render_pretty(&value).as_str()))
            },
            None => Err(heartbeat_problem(name, " is not running")),
        }
    }
}

/// Whether a heartbeat that was started at a time ticks next when it should: after each tick given
/// or skipped, one interval later.
pub open spec fn on_schedule(heartbeat: Heartbeat, start: int) -> bool {
    heartbeat.next_tick == start + heartbeat.interval() * (1 + heartbeat.delivered_ticks
        + heartbeat.skipped_ticks)
}

/// Every tick of the schedule is either given or skipped, and none is both: a heartbeat keeps to
/// its schedule, as long as its counts are not full.
pub proof fn law_ticks_are_given_or_skipped(heartbeat: Heartbeat, start: int, target: u128, now: u128)
    requires
        heartbeat.well_formed(),
        on_schedule(heartbeat, start),
        now <= END_OF_TIME,
        heartbeat.delivered_ticks < u64::MAX,
        heartbeat.skipped_ticks + heartbeat.due(now) <= u64::MAX,
    ensures
        on_schedule(heartbeat.caught_up(now), start),
        on_schedule(waited(heartbeat, target, now).0, start),
{
    lemma_caught_up(heartbeat, now);
    let interval = heartbeat.interval();
    let count = 1 + heartbeat.delivered_ticks + heartbeat.skipped_ticks;
    let due = heartbeat.due(now);
    assert(interval * (count + due) == interval * count + interval * due) by (nonlinear_arith);
    let idle = Heartbeat { waiting: false, ..heartbeat };
    if now >= target && idle.next_tick == target {
        let ticked = Heartbeat {
            delivered_ticks: (idle.delivered_ticks + 1) as u64,
            next_tick: (idle.next_tick + idle.interval()) as u128,
            ..idle
        };
        lemma_caught_up(ticked, now);
        assert(ticked.due(now) <= due) by {
            if now >= ticked.next_tick {
                vstd::arithmetic::div_mod::lemma_div_is_ordered(
                    now - ticked.next_tick,
                    now - heartbeat.next_tick,
                    interval,
                );
            }
        }
        let later = ticked.due(now);
        assert(interval * (count + 1 + later) == interval * count + interval + interval * later)
            by (nonlinear_arith);
    }
}

/// A heartbeat that has just been started keeps to its schedule.
pub proof fn law_heartbeats_start_on_schedule(interval_seconds: u64, now: u128, generation: u64)
    requires
        1 <= interval_seconds <= HEARTBEAT_MAX_INTERVAL_SECONDS,
        now <= END_OF_TIME,
    ensures
        on_schedule(Heartbeat::started(interval_seconds, now, generation), now as int),
{
    let heartbeat = Heartbeat::started(interval_seconds, now, generation);
    assert(heartbeat.interval() * 1 == heartbeat.interval()) by (nonlinear_arith);
}

/// A wait gives one tick at most, and whatever came of it the next tick is ahead or was not due for
/// this wait.
pub proof fn law_waits_give_one_tick(heartbeat: Heartbeat, target: u128, now: u128)
    requires
        heartbeat.well_formed(),
        now <= END_OF_TIME,
    ensures
        ({
            let (after, ticked) = waited(heartbeat, target, now);
            &&& after.delivered_ticks == if ticked {
                saturated(heartbeat.delivered_ticks as int, 1)
            } else {
                heartbeat.delivered_ticks as int
            }
            &&& ticked ==> now >= target && now < after.next_tick
            &&& !ticked ==> after.next_tick == heartbeat.next_tick
            &&& after.skipped_ticks >= heartbeat.skipped_ticks
            &&& !after.waiting
            &&& after.generation == heartbeat.generation
        }),
{
    let idle = Heartbeat { waiting: false, ..heartbeat };
    if now >= target && idle.next_tick == target {
        let ticked = Heartbeat {
            delivered_ticks: saturated(idle.delivered_ticks as int, 1) as u64,
            next_tick: (idle.next_tick + idle.interval()) as u128,
            ..idle
        };
        lemma_caught_up(ticked, now);
    }
}

/// A wait that ends at or after its tick gives the tick, and one that ends before gives none, as long as
/// the tick is still the next: the tick is given exactly then. The ticks that came after it and are due are
/// skipped, and the next one is the first that is still to come. A wait that gives no tick leaves the
/// schedule and the counts as they are.
pub proof fn law_waits_give_the_tick_that_is_due(heartbeat: Heartbeat, target: u128, now: u128)
    requires
        heartbeat.well_formed(),
        now <= END_OF_TIME,
    ensures
        ({
            let (after, ticked) = waited(heartbeat, target, now);
            let interval = heartbeat.interval_seconds * 1000000000;
            &&& ticked <==> now >= target && heartbeat.next_tick == target
            &&& ticked && heartbeat.delivered_ticks < u64::MAX ==> after.delivered_ticks
                == heartbeat.delivered_ticks + 1
            &&& ticked && heartbeat.delivered_ticks == u64::MAX ==> after.delivered_ticks == u64::MAX
            &&& ticked ==> now < after.next_tick && after.next_tick > target && (after.next_tick
                - interval == target || after.next_tick - interval <= now)
            &&& ticked ==> exists|missed: int|
                0 <= missed && after.next_tick == target + #[trigger] (interval * (1 + missed))
                    && after.skipped_ticks == if heartbeat.skipped_ticks + missed <= u64::MAX {
                    heartbeat.skipped_ticks + missed
                } else {
                    u64::MAX as int
                }
            &&& !ticked ==> after.delivered_ticks == heartbeat.delivered_ticks && after.skipped_ticks
                == heartbeat.skipped_ticks && after.next_tick == heartbeat.next_tick
            &&& !after.waiting
            &&& after.generation == heartbeat.generation
            &&& after.interval_seconds == heartbeat.interval_seconds
        }),
{
    let idle = Heartbeat { waiting: false, ..heartbeat };
    let interval = heartbeat.interval_seconds * 1000000000;
    if now >= target && heartbeat.next_tick == target {
        let ticked = Heartbeat {
            delivered_ticks: saturated(idle.delivered_ticks as int, 1) as u64,
            next_tick: (idle.next_tick + idle.interval()) as u128,
            ..idle
        };
        lemma_caught_up(ticked, now);
        let missed = ticked.due(now);
        assert(interval * (1 + missed) == interval + interval * missed) by (nonlinear_arith);
        if missed == 0 {
            assert(interval * missed == 0) by (nonlinear_arith)
                requires
                    missed == 0,
            ;
        }
    }
}

/// Skipping moves a heartbeat on by whole intervals, to the first tick that is still to come, and counts
/// each tick that it passes as skipped; it gives no tick and changes nothing else.
pub proof fn law_skipping_passes_the_ticks_that_are_due(heartbeat: Heartbeat, now: u128)
    requires
        heartbeat.well_formed(),
        now <= END_OF_TIME,
    ensures
        ({
            let after = heartbeat.caught_up(now);
            let interval = heartbeat.interval_seconds * 1000000000;
            let missed = heartbeat.due(now);
            &&& missed >= 0
            &&& missed == 0 <==> now < heartbeat.next_tick
            &&& after.next_tick == heartbeat.next_tick + interval * missed
            &&& now < after.next_tick
            &&& missed > 0 ==> after.next_tick - interval <= now
            &&& heartbeat.skipped_ticks + missed <= u64::MAX ==> after.skipped_ticks
                == heartbeat.skipped_ticks + missed
            &&& heartbeat.skipped_ticks + missed > u64::MAX ==> after.skipped_ticks == u64::MAX
            &&& after.delivered_ticks == heartbeat.delivered_ticks
            &&& after.interval_seconds == heartbeat.interval_seconds
            &&& after.waiting == heartbeat.waiting
            &&& after.generation == heartbeat.generation
        }),
{
    lemma_caught_up(heartbeat, now);
}

/// A heartbeat that is started ticks first after one interval, has given and skipped nothing, and is of
/// another generation than the one it replaces, so that who waits for that one is told so.
pub proof fn law_heartbeats_start_afresh(
    all: Map<HeartbeatKey, Heartbeat>,
    key: HeartbeatKey,
    interval_seconds: u64,
    now: u128,
)
    requires
        1 <= interval_seconds <= HEARTBEAT_MAX_INTERVAL_SECONDS,
        now <= END_OF_TIME,
    ensures
        ({
            let heartbeat = Heartbeat::started(interval_seconds, now, next_generation(all, key));
            &&& heartbeat.next_tick == now + interval_seconds * 1000000000
            &&& heartbeat.interval_seconds == interval_seconds
            &&& heartbeat.delivered_ticks == 0
            &&& heartbeat.skipped_ticks == 0
            &&& !heartbeat.waiting
            &&& all.dom().contains(key) && all[key].generation < u64::MAX ==> heartbeat.generation
                == all[key].generation + 1
        }),
{
}

/// Who waits sleeps until the tick, but for no longer than they allow: they wake at the tick or after the
/// longest wait, whichever comes first.
pub proof fn law_waits_end_in_time(target: u128, now: u128, max_wait_seconds: u64)
    requires
        now <= target,
    ensures
        ({
            let wait = waiting_time(target, now, max_wait_seconds);
            &&& 0 <= wait
            &&& now + wait <= target
            &&& wait <= max_wait_seconds * 1000000000
            &&& now + wait == target || wait == max_wait_seconds * 1000000000
        }),
{
}

/// A tick is told to come in the whole milliseconds that are left until it; none are left once it is due.
pub proof fn law_remaining_time_is_told_in_milliseconds(heartbeat: Heartbeat, now: u128)
    ensures
        ({
            let millis = remaining_millis(heartbeat, now);
            &&& 0 <= millis <= u64::MAX
            &&& now >= heartbeat.next_tick ==> millis == 0
            &&& now < heartbeat.next_tick && heartbeat.next_tick - now <= u64::MAX ==> millis * 1000000
                <= heartbeat.next_tick - now < (millis + 1) * 1000000
        }),
{
}

/// From the beginning of a wait to its end: a wait for the next tick is given that tick exactly if it ends
/// when the tick is due or later, however often the heartbeat was looked at in between; the tick is the
/// first one after the wait began, and those that came before were skipped, not given.
pub proof fn law_waits_are_given_the_first_tick(
    heartbeat: Heartbeat,
    began: u128,
    looked: u128,
    ended: u128,
)
    requires
        heartbeat.well_formed(),
        began <= looked <= ended <= END_OF_TIME,
    ensures
        ({
            let waiting = awaited(heartbeat, began);
            let seen = looked_at(waiting, looked);
            let (after, ticked) = waited(seen, waiting.next_tick, ended);
            let interval = heartbeat.interval_seconds * 1000000000;
            &&& waiting.waiting
            &&& waiting.next_tick > began
            &&& waiting.next_tick == heartbeat.next_tick || waiting.next_tick <= began + interval
            &&& waiting.next_tick >= heartbeat.next_tick
            &&& waiting.delivered_ticks == heartbeat.delivered_ticks
            &&& waiting.generation == heartbeat.generation
            &&& ticked <==> ended >= waiting.next_tick
            &&& ticked && heartbeat.delivered_ticks < u64::MAX ==> after.delivered_ticks
                == heartbeat.delivered_ticks + 1
            &&& !ticked ==> after == (Heartbeat { waiting: false, ..waiting })
            &&& !after.waiting
        }),
{
    lemma_caught_up(heartbeat, began);
    law_waits_give_the_tick_that_is_due(
        looked_at(awaited(heartbeat, began), looked),
        awaited(heartbeat, began).next_tick,
        ended,
    );
}

/// Asking how a heartbeat stands gives no tick: it takes nothing from one who waits, and where no one
/// waits it skips what is due.
pub proof fn law_looking_gives_no_tick(heartbeat: Heartbeat, now: u128)
    requires
        heartbeat.well_formed(),
        now <= END_OF_TIME,
    ensures
        heartbeat.waiting ==> looked_at(heartbeat, now) == heartbeat,
        !heartbeat.waiting ==> now < looked_at(heartbeat, now).next_tick,
        !heartbeat.waiting && now < heartbeat.next_tick ==> looked_at(heartbeat, now) == heartbeat,
        looked_at(heartbeat, now).delivered_ticks == heartbeat.delivered_ticks,
        looked_at(heartbeat, now).waiting == heartbeat.waiting,
        looked_at(heartbeat, now).generation == heartbeat.generation,
{
    lemma_caught_up(heartbeat, now);
    assert(heartbeat.interval() * 0 == 0) by (nonlinear_arith);
}

/// What a client is told of a heartbeat names it, says how it stands, and has its counts; of one that was
/// stopped, what it gave and skipped.
pub proof fn law_heartbeat_answers_tell_the_counts(
    name: Seq<char>,
    status: Seq<char>,
    heartbeat: Heartbeat,
    now: u128,
)
    ensures
        exists|value: JsonView|
            {
                &&& heartbeat_answer(name, status, heartbeat, now) == text_answer(
                    #[trigger] pretty(value, 0),
                )
                &&& member(value, "name"@) == Some(JsonView::Text(name))
                &&& member(value, "status"@) == Some(JsonView::Text(status))
                &&& member(value, "interval_seconds"@) == Some(
                    JsonView::Int(heartbeat.interval_seconds as int),
                )
                &&& member(value, "next_tick_in_ms"@) == Some(
                    JsonView::Int(remaining_millis(heartbeat, now)),
                )
                &&& member(value, "delivered_ticks"@) == Some(
                    JsonView::Int(heartbeat.delivered_ticks as int),
                )
                &&& member(value, "skipped_ticks"@) == Some(
                    JsonView::Int(heartbeat.skipped_ticks as int),
                )
            },
        exists|value: JsonView|
            {
                &&& stopped_answer(name, heartbeat) == text_answer(#[trigger] pretty(value, 0))
                &&& member(value, "name"@) == Some(JsonView::Text(name))
                &&& member(value, "status"@) == Some(JsonView::Text("stopped"@))
                &&& member(value, "delivered_ticks"@) == Some(
                    JsonView::Int(heartbeat.delivered_ticks as int),
                )
                &&& member(value, "skipped_ticks"@) == Some(
                    JsonView::Int(heartbeat.skipped_ticks as int),
                )
            },
{
    let told = seq![
        ("name"@, JsonView::Text(name)),
        ("status"@, JsonView::Text(status)),
        ("interval_seconds"@, JsonView::Int(heartbeat.interval_seconds as int)),
        ("next_tick_in_ms"@, JsonView::Int(remaining_millis(heartbeat, now))),
        ("delivered_ticks"@, JsonView::Int(heartbeat.delivered_ticks as int)),
        ("skipped_ticks"@, JsonView::Int(heartbeat.skipped_ticks as int)),
    ];
    let stopped = seq![
        ("name"@, JsonView::Text(name)),
        ("status"@, JsonView::Text("stopped"@)),
        ("delivered_ticks"@, JsonView::Int(heartbeat.delivered_ticks as int)),
        ("skipped_ticks"@, JsonView::Int(heartbeat.skipped_ticks as int)),
    ];
    reveal_strlit("name");
    reveal_strlit("status");
    reveal_strlit("interval_seconds");
    reveal_strlit("next_tick_in_ms");
    reveal_strlit("delivered_ticks");
    reveal_strlit("skipped_ticks");
    assert("delivered_ticks"@[0] == 'd' && "next_tick_in_ms"@[0] == 'n');
    assert(crate::json::distinct_keys(told));
    assert(crate::json::distinct_keys(stopped));
    reveal_with_fuel(filled_to, 7);
    lemma_entries_held(told);
    lemma_entries_held(stopped);
    assert(heartbeat_answer(name, status, heartbeat, now) == text_answer(pretty(filled(told), 0)));
    assert(stopped_answer(name, heartbeat) == text_answer(pretty(filled(stopped), 0)));
    assert(told[0].0 == "name"@ && told[1].0 == "status"@ && told[2].0 == "interval_seconds"@);
    assert(told[3].0 == "next_tick_in_ms"@ && told[4].0 == "delivered_ticks"@);
    assert(told[5].0 == "skipped_ticks"@);
    assert(stopped[0].0 == "name"@ && stopped[1].0 == "status"@);
    assert(stopped[2].0 == "delivered_ticks"@ && stopped[3].0 == "skipped_ticks"@);
}

/// A wait begins exactly if there is the heartbeat and no one waits for it yet; it is for the tick that comes
/// next, and lasts no longer than until that, nor than is allowed. A wait that does not begin changes nothing.
pub proof fn law_one_waits_at_a_time(
    all: Map<HeartbeatKey, Heartbeat>,
    key: HeartbeatKey,
    max_wait_seconds: u64,
    now: u128,
    again: u128,
)
    requires
        all.dom().contains(key) ==> all[key].well_formed(),
        now <= again <= END_OF_TIME,
    ensures
        ({
            let (result, after) = wait_begun(all, key, max_wait_seconds, now);
            &&& result is Ok <==> all.dom().contains(key) && !all[key].waiting
            &&& result is Err ==> after == all
            &&& result matches Ok(waiter) ==> {
                &&& after.dom().contains(key)
                &&& after[key].waiting
                &&& after[key].delivered_ticks == all[key].delivered_ticks
                &&& waiter.target == after[key].next_tick
                &&& waiter.target > now
                &&& waiter.generation == all[key].generation
                &&& now + waiter.wait_for <= waiter.target
                &&& waiter.wait_for <= max_wait_seconds * 1000000000
                &&& now + waiter.wait_for == waiter.target || waiter.wait_for == max_wait_seconds
                    * 1000000000
                &&& wait_begun(after, key, max_wait_seconds, again).0 is Err
            }
        }),
{
    if all.dom().contains(key) {
        lemma_caught_up(all[key], now);
        law_waits_end_in_time(awaited(all[key], now).next_tick, now, max_wait_seconds);
        assert(max_wait_seconds * NANOS_PER_SECOND <= u64::MAX * 1000000000);
    }
}

/// Who waits is told the tick only by the heartbeat for which they began to wait: where it was started anew in
/// the meantime, or stopped, they are refused, and what is there now is left as it is.
pub proof fn law_waits_end_with_their_heartbeat(
    all: Map<HeartbeatKey, Heartbeat>,
    key: HeartbeatKey,
    max_wait_seconds: u64,
    interval_seconds: u64,
    began: u128,
    changed: u128,
    ended: u128,
)
    requires
        all.dom().contains(key),
        all[key].well_formed(),
        all[key].generation < u64::MAX,
        began <= changed <= ended <= END_OF_TIME,
    ensures
        ({
            let (result, waiting) = wait_begun(all, key, max_wait_seconds, began);
            result matches Ok(waiter) ==> {
                let restarted = start_of(waiting, key, interval_seconds, changed).1;
                let stopped = stop_of(waiting, key).1;
                &&& wait_ended(restarted, key, waiter, ended).0 is Err
                &&& wait_ended(restarted, key, waiter, ended).1 == restarted
                &&& wait_ended(stopped, key, waiter, ended).0 is Err
                &&& wait_ended(stopped, key, waiter, ended).1 == stopped
                &&& wait_ended(waiting, key, waiter, ended).0 matches Ok((ticked, _)) && (ticked <==> ended
                    >= waiter.target)
                &&& !wait_ended(waiting, key, waiter, ended).1[key].waiting
            }
        }),
{
    lemma_caught_up(all[key], began);
    law_waits_give_the_tick_that_is_due(
        awaited(all[key], began),
        awaited(all[key], began).next_tick,
        ended,
    );
}

/// What is done to a heartbeat leaves all others as they are: those of other sessions, and those that the
/// session has under other names. A heartbeat that was started is there until it is stopped.
pub proof fn law_heartbeats_are_kept_apart(
    all: Map<HeartbeatKey, Heartbeat>,
    key: HeartbeatKey,
    interval_seconds: u64,
    max_wait_seconds: u64,
    waiter: Waiter,
    now: u128,
    other: HeartbeatKey,
)
    requires
        other != key,
    ensures
        forall|after: Map<HeartbeatKey, Heartbeat>|
            after == start_of(all, key, interval_seconds, now).1 || after == wait_begun(
                all,
                key,
                max_wait_seconds,
                now,
            ).1 || after == wait_ended(all, key, waiter, now).1 || after == status_of(all, key, now).1
                || after == stop_of(all, key).1 ==> (#[trigger] after.dom().contains(other)
                <==> all.dom().contains(other)) && (all.dom().contains(other) ==> after[other]
                == all[other]),
        start_of(all, key, interval_seconds, now).1.dom().contains(key),
        !stop_of(all, key).1.dom().contains(key),
        all.dom().contains(key) ==> wait_begun(all, key, max_wait_seconds, now).1.dom().contains(key)
            && wait_ended(all, key, waiter, now).1.dom().contains(key) && status_of(
            all,
            key,
            now,
        ).1.dom().contains(key),
{
}

/// What is not there cannot be waited for, looked at or stopped.
pub proof fn law_missing_heartbeats_are_told(
    all: Map<HeartbeatKey, Heartbeat>,
    key: HeartbeatKey,
    max_wait_seconds: u64,
    waiter: Waiter,
    now: u128,
)
    ensures
        stop_of(all, key).0 is Ok <==> all.dom().contains(key),
        status_of(all, key, now).0 is Ok <==> all.dom().contains(key),
        wait_begun(all, key, max_wait_seconds, now).0 is Ok ==> all.dom().contains(key),
        wait_ended(all, key, waiter, now).0 is Ok <==> all.dom().contains(key) && all[key].generation
            == waiter.generation,
        stop_of(all, key).0 matches Ok(answer) ==> answer == stopped_answer(key.1, all[key]),
        status_of(all, key, now).0 matches Ok(answer) ==> answer == heartbeat_answer(
            key.1,
            if all[key].waiting {
                "waiting"@
            } else {
                "idle"@
            },
            status_of(all, key, now).1[key],
            now,
        ),
        wait_ended(all, key, waiter, now).0 matches Ok((ticked, answer)) ==> answer == heartbeat_answer(
            key.1,
            if ticked {
                "tick"@
            } else {
                "waiting"@
            },
            wait_ended(all, key, waiter, now).1[key],
            now,
        ),
{
}

} // verus!
