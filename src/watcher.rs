//! Deciding when the clipboard has settled: a polled edge detector whose
//! timer restarts on every observed change.

use vstd::prelude::*;

verus! {

/// Time between two reads of the clipboard, in milliseconds.
pub const POLL_INTERVAL_MS: u64 = 500;

/// How long the clipboard must stay unchanged before it is applied, in
/// milliseconds.
pub const QUIET_THRESHOLD_MS: u64 = 2000;

/// The watcher's memory: the text last observed and when it was first seen.
pub struct Watcher {
    pub last_text: String,
    pub last_change_at: u64,
}

/// The watcher's memory as values.
pub struct WatchState {
    pub text: Seq<char>,
    pub since: int,
}

/// What to do after one read of the clipboard.
pub enum WatchAction {
    /// Nothing new: keep polling.
    Idle,
    /// The clipboard changed: announce it and keep polling.
    Updated,
    /// The text has been stable long enough: apply it and stop.
    Fire(String),
}

/// A `WatchAction` as values.
pub enum WatchSignal {
    Idle,
    Updated,
    Fire(Seq<char>),
}

impl View for Watcher {
    type V = WatchState;

    open spec fn view(&self) -> WatchState {
        WatchState { text: self.last_text@, since: self.last_change_at as int }
    }
}

impl View for WatchAction {
    type V = WatchSignal;

    open spec fn view(&self) -> WatchSignal {
        match self {
            WatchAction::Idle => WatchSignal::Idle,
            WatchAction::Updated => WatchSignal::Updated,
            WatchAction::Fire(t) => WatchSignal::Fire(t@),
        }
    }
}

/// One poll: from the state, the time of the read and what was read (`None`
/// where the clipboard could not be read), the next state and the signal.
pub open spec fn watch_step(s: WatchState, now: int, read: Option<Seq<char>>) -> (
    WatchState,
    WatchSignal,
) {
    match read {
        None => (s, WatchSignal::Idle),
        Some(t) => if t != s.text {
            (WatchState { text: t, since: now }, WatchSignal::Updated)
        } else if t.len() > 0 && now - s.since >= QUIET_THRESHOLD_MS {
            (s, WatchSignal::Fire(t))
        } else {
            (s, WatchSignal::Idle)
        },
    }
}

/// The first fire along a run of polls, each a time and a read: the index of
/// the poll and the text fired, or `None` if the run never fires.
pub open spec fn first_fire(s: WatchState, polls: Seq<(int, Option<Seq<char>>)>) -> Option<
    (int, Seq<char>),
>
    decreases polls.len(),
{
    if polls.len() == 0 {
        None
    } else {
        let (next, signal) = watch_step(s, polls[0].0, polls[0].1);
        match signal {
            WatchSignal::Fire(t) => Some((0, t)),
            _ => match first_fire(next, polls.drop_first()) {
                Some((k, t)) => Some((k + 1, t)),
                None => None,
            },
        }
    }
}

/// The poll times never go backwards, and none comes before `start`.
pub open spec fn monotonic_from(start: int, polls: Seq<(int, Option<Seq<char>>)>) -> bool {
    &&& forall|i: int| 0 <= i < polls.len() ==> start <= #[trigger] polls[i].0
    &&& forall|i: int, j: int| 0 <= i <= j < polls.len() ==> #[trigger] polls[i].0 <= #[trigger] polls[j].0
}

/// A read of the clipboard as values.
pub open spec fn read_view(read: Option<String>) -> Option<Seq<char>> {
    match read {
        Some(t) => Some(t@),
        None => None,
    }
}

impl Watcher {
    /// A watcher started at time `now`, having seen only the empty text.
    pub fn new(now: u64) -> (r: Watcher)
        ensures
            r@ == (WatchState { text: Seq::<char>::empty(), since: now as int }),
    {
        Watcher { last_text: String::new(), last_change_at: now }
    }

    /// Take one read of the clipboard made at time `now`.
    pub fn observe(&mut self, now: u64, read: Option<String>) -> (r: WatchAction)
        requires
            old(self).last_change_at <= now,
        ensures
            (final(self)@, r@) == watch_step(old(self)@, now as int, read_view(read)),
    {
        match read {
            None => WatchAction::Idle,
            Some(t) => {
                if t != self.last_text {
                    self.last_text = t;
                    self.last_change_at = now;
                    WatchAction::Updated
                } else if !t.as_str().is_empty() && now - self.last_change_at >= QUIET_THRESHOLD_MS {
                    WatchAction::Fire(t)
                } else {
                    WatchAction::Idle
                }
            },
        }
    }
}

/// A fire, when there is one, names one of the polls.
pub proof fn lemma_fire_in_range(s: WatchState, polls: Seq<(int, Option<Seq<char>>)>)
    ensures
        first_fire(s, polls) matches Some((k, _)) ==> 0 <= k < polls.len(),
    decreases polls.len(),
{
    if polls.len() > 0 {
        let next = watch_step(s, polls[0].0, polls[0].1).0;
        lemma_fire_in_range(next, polls.drop_first());
    }
}

/// A watcher that has only ever read the empty text, or nothing, never fires.
pub proof fn lemma_never_fires_on_empty(s: WatchState, polls: Seq<(int, Option<Seq<char>>)>)
    requires
        s.text.len() == 0,
        forall|i: int|
            0 <= i < polls.len() ==> #[trigger] polls[i].1 is None || polls[i].1->Some_0.len() == 0,
    ensures
        first_fire(s, polls) is None,
    decreases polls.len(),
{
    if polls.len() > 0 {
        let next = watch_step(s, polls[0].0, polls[0].1).0;
        assert(polls[0].1 is None || polls[0].1->Some_0.len() == 0);
        if let Some(t) = polls[0].1 {
            assert(t =~= s.text);
        }
        let rest = polls.drop_first();
        assert forall|i: int| 0 <= i < rest.len() implies #[trigger] rest[i].1 is None
            || rest[i].1->Some_0.len() == 0 by {
            assert(rest[i] == polls[i + 1]);
        }
        lemma_never_fires_on_empty(next, rest);
    }
}

/// Under a clock that never goes backwards, no fire comes earlier than the
/// quiet threshold after the time `t` of the last observed change.
pub proof fn lemma_no_fire_before_quiet(s: WatchState, polls: Seq<(int, Option<Seq<char>>)>, t: int)
    requires
        t <= s.since,
        monotonic_from(s.since, polls),
    ensures
        first_fire(s, polls) matches Some((k, _)) ==> polls[k].0 >= t + QUIET_THRESHOLD_MS,
    decreases polls.len(),
{
    if polls.len() > 0 {
        let (next, signal) = watch_step(s, polls[0].0, polls[0].1);
        if !(signal is Fire) {
            let rest = polls.drop_first();
            assert(s.since <= polls[0].0);
            assert forall|i: int| 0 <= i < rest.len() implies next.since <= #[trigger] rest[i].0 by {
                assert(rest[i] == polls[i + 1]);
                assert(polls[0].0 <= polls[i + 1].0);
            }
            assert forall|i: int, j: int| 0 <= i <= j < rest.len() implies #[trigger] rest[i].0
                <= #[trigger] rest[j].0 by {
                assert(rest[i] == polls[i + 1]);
                assert(rest[j] == polls[j + 1]);
            }
            lemma_no_fire_before_quiet(next, rest, t);
            lemma_fire_in_range(next, rest);
            if let Some((k, _)) = first_fire(s, polls) {
                assert(polls[k] == rest[k - 1]);
            }
        }
    }
}

/// A change to a new text at the first poll, at time `t1`, puts off every
/// fire until `t1` plus the quiet threshold.
pub proof fn lemma_reset_on_change(s: WatchState, polls: Seq<(int, Option<Seq<char>>)>)
    requires
        polls.len() > 0,
        polls[0].1 matches Some(v) && v != s.text,
        monotonic_from(s.since, polls),
    ensures
        first_fire(s, polls) matches Some((k, _)) ==> k > 0 && polls[k].0 >= polls[0].0
            + QUIET_THRESHOLD_MS,
{
    let next = watch_step(s, polls[0].0, polls[0].1).0;
    let rest = polls.drop_first();
    assert forall|i: int| 0 <= i < rest.len() implies next.since <= #[trigger] rest[i].0 by {
        assert(rest[i] == polls[i + 1]);
        assert(polls[0].0 <= polls[i + 1].0);
    }
    assert forall|i: int, j: int| 0 <= i <= j < rest.len() implies #[trigger] rest[i].0
        <= #[trigger] rest[j].0 by {
        assert(rest[i] == polls[i + 1]);
        assert(rest[j] == polls[j + 1]);
    }
    lemma_no_fire_before_quiet(next, rest, polls[0].0);
    lemma_fire_in_range(next, rest);
    if let Some((k, _)) = first_fire(s, polls) {
        assert(polls[k] == rest[k - 1]);
    }
}

/// A non-empty text `v`, first seen at `s.since` and read unchanged at every
/// later poll, fires exactly at the first poll at or after the quiet threshold,
/// with `v`.
pub proof fn lemma_fires_when_quiet(
    s: WatchState,
    polls: Seq<(int, Option<Seq<char>>)>,
    k: int,
)
    requires
        s.text.len() > 0,
        forall|i: int| 0 <= i < polls.len() ==> #[trigger] polls[i].1 == Some(s.text),
        0 <= k < polls.len(),
        polls[k].0 >= s.since + QUIET_THRESHOLD_MS,
        forall|j: int| 0 <= j < k ==> #[trigger] polls[j].0 < s.since + QUIET_THRESHOLD_MS,
    ensures
        first_fire(s, polls) == Some((k, s.text)),
    decreases k,
{
    assert(polls[0].1 == Some(s.text));
    if k > 0 {
        assert(polls[0].0 < s.since + QUIET_THRESHOLD_MS);
        let rest = polls.drop_first();
        assert forall|i: int| 0 <= i < rest.len() implies #[trigger] rest[i].1 == Some(s.text) by {
            assert(rest[i] == polls[i + 1]);
        }
        assert forall|j: int| 0 <= j < k - 1 implies #[trigger] rest[j].0 < s.since
            + QUIET_THRESHOLD_MS by {
            assert(rest[j] == polls[j + 1]);
        }
        assert(rest[k - 1] == polls[k]);
        lemma_fires_when_quiet(s, rest, k - 1);
    }
}

} // verus!
