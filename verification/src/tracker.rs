//! The activity-sampling state machine: turns a stream of raw focus samples
//! into heartbeat pulses and focus transitions. Exactly one transition is
//! emitted per distinct consecutive app-identity change; repeated samples of
//! the same app, even with a changing window title, emit none. A sample
//! observed while paused produces no outputs and leaves every state and
//! ledger row untouched; resuming re-arms recording from the next sample.

use vstd::prelude::*;

use crate::error::AppError;
use crate::models::{EventType, TransitionType};
use crate::store::Store;
use crate::time::valid_ts;

verus! {

/// One raw focus sample from the OS probe.
#[derive(Debug, Clone)]
pub struct Sample {
    pub app_name: String,
    pub window_title: String,
    pub pid: i64,
    pub timestamp: i64,
}

/// A pulse to persist: sustained focus on one app for one interval.
#[derive(Debug, Clone)]
pub struct PulseDraft {
    pub app_id: String,
    pub window_title: String,
    pub timestamp: i64,
    pub duration: i64,
}

/// A transition to persist: the focused app changed identity.
#[derive(Debug, Clone)]
pub struct TransitionDraft {
    pub from_app: String,
    pub to_app: String,
    pub transition_type: TransitionType,
    pub timestamp: i64,
}

/// What one observed sample produces.
#[derive(Debug)]
pub struct StepOutcome {
    pub pulse: Option<PulseDraft>,
    pub transition: Option<TransitionDraft>,
    pub dwell: Option<i64>,
}

/// The sampling state machine: idle until the first sample, then focused on
/// one app.
#[derive(Debug)]
pub struct FocusTracker {
    pub focused_app: Option<String>,
    pub focused_title: String,
    pub last_switch_ts: i64,
    pub interval_s: i64,
}

/// The sample is observed while no app holds focus.
pub open spec fn is_initial(t: FocusTracker) -> bool {
    t.focused_app is None
}

/// The sample repeats the focused app's identity.
pub open spec fn is_same(t: FocusTracker, sample: Sample) -> bool {
    t.focused_app matches Some(a) && a@ == sample.app_name@
}

/// The sample changes the focused app's identity.
pub open spec fn is_switch(t: FocusTracker, sample: Sample) -> bool {
    t.focused_app matches Some(a) && a@ != sample.app_name@
}

impl FocusTracker {
    pub open spec fn wf(self) -> bool {
        &&& self.interval_s >= 1
        &&& valid_ts(self.last_switch_ts as int)
    }

    /// An idle tracker that emits one pulse per sample, each covering one
    /// sampling interval of `interval_s` seconds.
    pub fn new(interval_s: i64) -> (r: FocusTracker)
        requires
            1 <= interval_s,
        ensures
            r.wf(),
            is_initial(r),
            r.interval_s == interval_s,
            r.last_switch_ts == 0,
    {
        FocusTracker { focused_app: None, focused_title: String::new(), last_switch_ts: 0, interval_s }
    }

    /// Observes one sample. While paused, nothing is produced and nothing
    /// changes. Otherwise the first sample and every same-app sample yield
    /// only a heartbeat pulse; a sample of a different app yields exactly
    /// one switch transition, the dwell time of the app it replaces, and a
    /// pulse for the new app.
    pub fn observe(&mut self, sample: &Sample, paused: bool) -> (out: StepOutcome)
        requires
            old(self).wf(),
            valid_ts(sample.timestamp as int),
            sample.timestamp >= old(self).last_switch_ts,
        ensures
            final(self).wf(),
            paused ==> *final(self) == *old(self) && out.pulse is None && out.transition is None
                && out.dwell is None,
            !paused ==> {
                &&& final(self).interval_s == old(self).interval_s
                &&& final(self).focused_app matches Some(a) && a@ == sample.app_name@
                &&& final(self).focused_title@ == sample.window_title@
                &&& out.pulse matches Some(p) && p.app_id@ == sample.app_name@
                    && p.window_title@ == sample.window_title@ && p.timestamp
                    == sample.timestamp && p.duration == old(self).interval_s
            },
            !paused && (is_initial(*old(self)) || is_same(*old(self), *sample)) ==> {
                &&& out.transition is None
                &&& out.dwell is None
            },
            !paused && is_initial(*old(self)) ==> final(self).last_switch_ts
                == sample.timestamp,
            !paused && is_same(*old(self), *sample) ==> final(self).last_switch_ts == old(
                self,
            ).last_switch_ts,
            !paused && is_switch(*old(self), *sample) ==> {
                &&& out.transition matches Some(t) && old(self).focused_app matches Some(prev)
                    && t.from_app@ == prev@ && t.to_app@ == sample.app_name@
                    && t.transition_type == TransitionType::AppSwitch && t.timestamp
                    == sample.timestamp
                &&& out.dwell == Some(
                    (sample.timestamp - old(self).last_switch_ts) as i64,
                )
                &&& final(self).last_switch_ts == sample.timestamp
            },
    {
        if paused {
            return StepOutcome { pulse: None, transition: None, dwell: None };
        }
        let had_focus: bool;
        let same_app: bool;
        match &self.focused_app {
            Some(app) => {
                had_focus = true;
                same_app = *app == sample.app_name;
            },
            None => {
                had_focus = false;
                same_app = false;
            },
        }
        let pulse = PulseDraft {
            app_id: sample.app_name.clone(),
            window_title: sample.window_title.clone(),
            timestamp: sample.timestamp,
            duration: self.interval_s,
        };
        if !had_focus {
            self.focused_app = Some(sample.app_name.clone());
            self.focused_title = sample.window_title.clone();
            self.last_switch_ts = sample.timestamp;
            StepOutcome { pulse: Some(pulse), transition: None, dwell: None }
        } else if same_app {
            self.focused_title = sample.window_title.clone();
            StepOutcome { pulse: Some(pulse), transition: None, dwell: None }
        } else {
            let dwell = sample.timestamp - self.last_switch_ts;
            let mut prev_opt: Option<String> = Some(sample.app_name.clone());
            core::mem::swap(&mut self.focused_app, &mut prev_opt);
            let prev: String = if let Some(p) = prev_opt {
                p
            } else {
                String::new()
            };
            self.focused_title = sample.window_title.clone();
            self.last_switch_ts = sample.timestamp;
            let transition = TransitionDraft {
                from_app: prev,
                to_app: sample.app_name.clone(),
                transition_type: TransitionType::AppSwitch,
                timestamp: sample.timestamp,
            };
            StepOutcome { pulse: Some(pulse), transition: Some(transition), dwell: Some(dwell) }
        }
    }
}

/// The decimal digit of a value below ten.
pub open spec fn dec_digit(d: int) -> char {
    if d == 0 {
        '0'
    } else if d == 1 {
        '1'
    } else if d == 2 {
        '2'
    } else if d == 3 {
        '3'
    } else if d == 4 {
        '4'
    } else if d == 5 {
        '5'
    } else if d == 6 {
        '6'
    } else if d == 7 {
        '7'
    } else if d == 8 {
        '8'
    } else {
        '9'
    }
}

/// The decimal digits of a positive value, most significant first; empty
/// for zero and below.
pub open spec fn dec_digits(n: int) -> Seq<char>
    decreases n,
{
    if n <= 0 {
        Seq::empty()
    } else {
        dec_digits(n / 10).push(dec_digit(n % 10))
    }
}

/// The decimal spelling of a non-negative value.
pub open spec fn decimal_of(n: int) -> Seq<char> {
    if n == 0 {
        seq!['0']
    } else {
        dec_digits(n)
    }
}

/// The decimal digit of a value below ten, as a one-character string.
fn dec_digit_str(d: u64) -> (r: &'static str)
    requires
        d < 10,
    ensures
        r@ =~= seq![dec_digit(d as int)],
{
    proof {
        reveal_strlit("0");
        reveal_strlit("1");
        reveal_strlit("2");
        reveal_strlit("3");
        reveal_strlit("4");
        reveal_strlit("5");
        reveal_strlit("6");
        reveal_strlit("7");
        reveal_strlit("8");
        reveal_strlit("9");
    }
    if d == 0 {
        "0"
    } else if d == 1 {
        "1"
    } else if d == 2 {
        "2"
    } else if d == 3 {
        "3"
    } else if d == 4 {
        "4"
    } else if d == 5 {
        "5"
    } else if d == 6 {
        "6"
    } else if d == 7 {
        "7"
    } else if d == 8 {
        "8"
    } else {
        "9"
    }
}

/// The decimal spelling of a value.
fn u64_decimal(n: u64) -> (r: String)
    ensures
        r@ == decimal_of(n as int),
{
    if n == 0 {
        proof {
            reveal_strlit("0");
        }
        return String::from_str("0");
    }
    // digits least significant first
    let mut digits: Vec<u64> = Vec::new();
    let mut m = n;
    let ghost mut suffix: Seq<char> = Seq::empty();
    while m > 0
        invariant
            dec_digits(n as int) =~= dec_digits(m as int) + suffix,
            suffix.len() == digits@.len(),
            forall|i: int|
                0 <= i < digits@.len() ==> digits@[i] < 10 && suffix[suffix.len() - 1 - i]
                    == dec_digit(digits@[i] as int),
        decreases m,
    {
        let d = m % 10;
        digits.push(d);
        proof {
            vstd::arithmetic::div_mod::lemma_div_decreases(m as int, 10);
            assert(dec_digits(m as int) == dec_digits(m as int / 10).push(
                dec_digit(m as int % 10),
            ));
            assert(dec_digits(m as int / 10) + (seq![dec_digit(m as int % 10)] + suffix)
                =~= dec_digits(m as int) + suffix);
            suffix = seq![dec_digit(m as int % 10)] + suffix;
        }
        m = m / 10;
    }
    proof {
        assert(dec_digits(0int) =~= Seq::<char>::empty());
        assert(dec_digits(n as int) =~= suffix);
    }
    // spell them most significant first
    let mut s = String::new();
    let mut k: usize = digits.len();
    while k > 0
        invariant
            0 <= k <= digits@.len(),
            suffix.len() == digits@.len(),
            forall|i: int|
                0 <= i < digits@.len() ==> digits@[i] < 10 && suffix[suffix.len() - 1 - i]
                    == dec_digit(digits@[i] as int),
            s@ =~= suffix.subrange(0, digits@.len() - k),
        decreases k,
    {
        k = k - 1;
        let part = dec_digit_str(digits[k]);
        s.append(part);
        proof {
            assert(s@ =~= suffix.subrange(0, digits@.len() - k));
        }
    }
    proof {
        assert(suffix.subrange(0, suffix.len() as int) =~= suffix);
    }
    s
}

/// The app identity of one sample: the resolved process name, or the
/// synthetic `pid:<n>` label when the process exited between the sample
/// and the lookup — the sample is kept, never failed.
pub fn resolve_app_name(name: Option<String>, pid: i64) -> (r: String)
    requires
        pid >= 0,
    ensures
        match name {
            Some(n) => r == n,
            None => r@ == "pid:"@ + decimal_of(pid as int),
        },
{
    match name {
        Some(n) => n,
        None => {
            let mut s = String::from_str("pid:");
            let num = u64_decimal(pid as u64);
            s.append(num.as_str());
            s
        },
    }
}

/// The focused-app identity a tracker holds, as a plain value.
pub open spec fn focused_view(t: FocusTracker) -> Option<Seq<char>> {
    match t.focused_app {
        Some(a) => Some(a@),
        None => None,
    }
}

/// Whether observing an app emits a transition in a given focus state: only
/// a change of identity does.
pub open spec fn step_emits(prev: Option<Seq<char>>, app: Seq<char>) -> bool {
    prev matches Some(a) && a != app
}

/// The focused-app identity after an unpaused run of samples.
pub open spec fn focused_after(prev: Option<Seq<char>>, apps: Seq<Seq<char>>) -> Option<
    Seq<char>,
> {
    if apps.len() == 0 {
        prev
    } else {
        Some(apps.last())
    }
}

/// How many transitions the state machine emits over an unpaused run,
/// stepping through the samples in order.
pub open spec fn transitions_emitted(prev: Option<Seq<char>>, apps: Seq<Seq<char>>) -> int
    decreases apps.len(),
{
    if apps.len() == 0 {
        0
    } else {
        transitions_emitted(prev, apps.drop_last()) + (if step_emits(
            focused_after(prev, apps.drop_last()),
            apps.last(),
        ) {
            1int
        } else {
            0int
        })
    }
}

/// Whether the sample at position `i` changes the app identity relative to
/// its predecessor (or to the initially focused app, for the first).
pub open spec fn is_change_at(prev: Option<Seq<char>>, apps: Seq<Seq<char>>, i: int) -> bool {
    if i == 0 {
        step_emits(prev, apps[0])
    } else {
        apps[i - 1] != apps[i]
    }
}

/// How many positions of a run change the app identity.
pub open spec fn change_count(prev: Option<Seq<char>>, apps: Seq<Seq<char>>) -> int
    decreases apps.len(),
{
    if apps.len() == 0 {
        0
    } else {
        change_count(prev, apps.drop_last()) + (if is_change_at(prev, apps, apps.len() - 1) {
            1int
        } else {
            0int
        })
    }
}

/// Exactly one transition is emitted per distinct consecutive app-identity
/// change: over any run, the transitions the state machine emits are as
/// many as the positions that change the identity.
pub proof fn lemma_one_transition_per_change(prev: Option<Seq<char>>, apps: Seq<Seq<char>>)
    ensures
        transitions_emitted(prev, apps) == change_count(prev, apps),
    decreases apps.len(),
{
    if apps.len() > 0 {
        lemma_one_transition_per_change(prev, apps.drop_last());
        if apps.len() > 1 {
            assert(apps.drop_last().last() == apps[apps.len() - 2]);
        }
    }
}

/// Repeated samples of one app never emit a transition, however long the
/// run and whatever the window titles do.
pub proof fn lemma_same_app_run_emits_none(app: Seq<char>, apps: Seq<Seq<char>>)
    requires
        forall|i: int| 0 <= i < apps.len() ==> apps[i] == app,
    ensures
        transitions_emitted(Some(app), apps) == 0,
    decreases apps.len(),
{
    if apps.len() > 0 {
        assert forall|i: int| 0 <= i < apps.drop_last().len() implies apps.drop_last()[i]
            == app by {
            assert(apps.drop_last()[i] == apps[i]);
        }
        lemma_same_app_run_emits_none(app, apps.drop_last());
        if apps.len() > 1 {
            assert(apps.drop_last().last() == apps[apps.len() - 2]);
        }
    }
}

/// Room and referents for what one unpaused sample may write.
pub open spec fn can_record(store: Store, tracker: FocusTracker, session_id: i64) -> bool {
    &&& store.has_session(session_id as int)
    &&& store.next_id + 1 < i64::MAX
    &&& store.total_duration + tracker.interval_s <= i64::MAX
}

/// Feeds one sample through the state machine and persists what it
/// produces: nothing while paused; one heartbeat pulse for a first or
/// same-app sample; one switch transition and one pulse for an app change.
pub fn record_sample(
    store: &mut Store,
    tracker: &mut FocusTracker,
    session_id: i64,
    sample: &Sample,
    paused: bool,
) -> (r: Result<(), AppError>)
    requires
        old(store).wf(),
        old(tracker).wf(),
        valid_ts(sample.timestamp as int),
        sample.timestamp >= old(tracker).last_switch_ts,
    ensures
        final(store).wf(),
        final(tracker).wf(),
        paused ==> *final(store) == *old(store) && *final(tracker) == *old(tracker) && r is Ok,
        !paused && !can_record(*old(store), *old(tracker), session_id) ==> *final(store) == *old(
            store,
        ) && *final(tracker) == *old(tracker) && r is Err,
        !paused && can_record(*old(store), *old(tracker), session_id) ==> {
            &&& r is Ok
            &&& final(store).sessions@ == old(store).sessions@
            &&& final(store).screenshots@ == old(store).screenshots@
            &&& final(store).audits@ == old(store).audits@
            &&& final(store).activities@.len() == old(store).activities@.len() + 1
            &&& forall|i: int|
                0 <= i < old(store).activities@.len() ==> final(store).activities@[i] == old(
                    store,
                ).activities@[i]
            &&& {
                let p = final(store).activities@.last();
                &&& p.session_id == session_id
                &&& p.app_id@ == sample.app_name@
                &&& p.window_title@ == sample.window_title@
                &&& p.event_type == EventType::Focus
                &&& p.timestamp == sample.timestamp
                &&& p.duration == Some(old(tracker).interval_s)
                &&& p.metadata is None
            }
            &&& (is_initial(*old(tracker)) || is_same(*old(tracker), *sample))
                ==> final(store).transitions@ == old(store).transitions@
            &&& is_switch(*old(tracker), *sample) ==> {
                &&& final(store).transitions@.len() == old(store).transitions@.len() + 1
                &&& forall|i: int|
                    0 <= i < old(store).transitions@.len() ==> final(store).transitions@[i]
                        == old(store).transitions@[i]
                &&& {
                    let t = final(store).transitions@.last();
                    &&& t.session_id == session_id
                    &&& old(tracker).focused_app matches Some(prev) && t.from_app@ == prev@
                    &&& t.to_app@ == sample.app_name@
                    &&& t.transition_type == TransitionType::AppSwitch
                    &&& t.timestamp == sample.timestamp
                }
            }
            &&& focused_view(*final(tracker)) == Some(sample.app_name@)
            &&& final(tracker).interval_s == old(tracker).interval_s
            &&& ((is_initial(*old(tracker)) || is_switch(*old(tracker), *sample))
                ==> final(tracker).last_switch_ts == sample.timestamp)
            &&& (is_same(*old(tracker), *sample)
                ==> final(tracker).last_switch_ts == old(tracker).last_switch_ts)
        },
        !paused && can_record(*old(store), *old(tracker), session_id)
            ==> (final(store).transitions@.len() > old(store).transitions@.len()
            <==> step_emits(focused_view(*old(tracker)), sample.app_name@)),
{
    if paused {
        return Ok(());
    }
    if !store.session_exists(session_id) {
        return Err(AppError::Database(String::from_str("unknown session")));
    }
    if store.next_id >= i64::MAX - 1 {
        return Err(AppError::Database(String::from_str("row ids exhausted")));
    }
    proof {
        crate::store::lemma_sum_durations_nonneg(store.activities@);
    }
    if tracker.interval_s > i64::MAX - store.total_duration {
        return Err(AppError::Database(String::from_str("duration total overflow")));
    }
    let out = tracker.observe(sample, false);
    if let Some(t) = out.transition {
        let res = store.insert_app_transition(
            session_id,
            t.from_app,
            t.to_app,
            t.transition_type,
            t.timestamp,
        );
        if let Err(e) = res {
            return Err(e);
        }
    }
    if let Some(p) = out.pulse {
        let res = store.insert_window_activity(
            session_id,
            p.app_id,
            p.window_title,
            EventType::Focus,
            p.timestamp,
            Some(p.duration),
            None,
        );
        if let Err(e) = res {
            return Err(e);
        }
    }
    Ok(())
}

} // verus!
