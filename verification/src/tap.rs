//! Taking over ⌘Tab (and ⌘` while the hub is open): what each event that
//! reaches the session event tap stands for, and how the tap waits for the
//! Accessibility grant.
use vstd::prelude::*;

use crate::modifiers;

verus! {

/// A key that the tap claims.
#[derive(Clone, Copy, Debug, PartialEq, Eq, Structural)]
pub enum Key {
    Tab,
    Grave,
}

/// The kind of an event at the tap.
#[derive(Clone, Copy, Debug, PartialEq, Eq, Structural)]
pub enum EventKind {
    /// The system switched a slow tap off.
    DisabledByTimeout,
    DisabledByUserInput,
    KeyDown,
    FlagsChanged,
    Other,
}

/// What the tap does with an event.
#[derive(Clone, Copy, Debug, PartialEq, Eq, Structural)]
pub enum TapAction {
    /// Switch the tap back on, and pass the event on.
    Reenable,
    /// Ask the hub about the key (`shift` for the reverse direction).
    Press { key: Key, shift: bool },
    /// Tell the hub that ⌘ is up, and pass the event on.
    CommandUp,
    /// Pass the event on.
    Pass,
}

pub const KEY_TAB: i64 = 48;

pub const KEY_GRAVE: i64 = 50;

/// The key with this code, of those that the tap claims.
pub open spec fn claimed_key(code: i64) -> Option<Key> {
    if code == KEY_TAB {
        Some(Key::Tab)
    } else if code == KEY_GRAVE {
        Some(Key::Grave)
    } else {
        None
    }
}

/// ⌘ is held without ⌃ and without ⌥.
pub open spec fn command_alone(flags: u64) -> bool {
    &&& modifiers::all_held(flags, modifiers::COMMAND)
    &&& !modifiers::any_held(flags, modifiers::CONTROL | modifiers::OPTION)
}

/// What the tap does with an event of this kind, with these modifiers and
/// this key code.
pub open spec fn tap_action(kind: EventKind, flags: u64, code: i64) -> TapAction {
    match kind {
        EventKind::DisabledByTimeout | EventKind::DisabledByUserInput => TapAction::Reenable,
        EventKind::KeyDown => match claimed_key(code) {
            Some(key) if command_alone(flags) => TapAction::Press {
                key,
                shift: modifiers::all_held(flags, modifiers::SHIFT),
            },
            _ => TapAction::Pass,
        },
        EventKind::FlagsChanged => if modifiers::all_held(flags, modifiers::COMMAND) {
            TapAction::Pass
        } else {
            TapAction::CommandUp
        },
        EventKind::Other => TapAction::Pass,
    }
}

/// Decides what the tap does with an event.
pub fn callback(kind: EventKind, flags: u64, code: i64) -> (r: TapAction)
    ensures
        r == tap_action(kind, flags, code),
{
    match kind {
        EventKind::DisabledByTimeout => TapAction::Reenable,
        EventKind::DisabledByUserInput => TapAction::Reenable,
        EventKind::KeyDown => {
            if modifiers::contains(flags, modifiers::COMMAND) && !modifiers::intersects(
                flags,
                modifiers::CONTROL | modifiers::OPTION,
            ) {
                let shift: bool = modifiers::contains(flags, modifiers::SHIFT);
                if code == KEY_TAB {
                    return TapAction::Press { key: Key::Tab, shift };
                }
                if code == KEY_GRAVE {
                    return TapAction::Press { key: Key::Grave, shift };
                }
            }
            TapAction::Pass
        },
        EventKind::FlagsChanged => if !modifiers::contains(flags, modifiers::COMMAND) {
            TapAction::CommandUp
        } else {
            TapAction::Pass
        },
        EventKind::Other => TapAction::Pass,
    }
}

/// The tap passes on every key but ⌘Tab and ⌘`, whatever else is held: it asks
/// the hub about a key only where ⌘ is held without ⌃ and ⌥ and the key is one
/// of the two.
pub proof fn law_other_keys_pass(flags: u64, code: i64)
    ensures
        tap_action(EventKind::KeyDown, flags, code) == TapAction::Pass <==> (code != KEY_TAB && code
            != KEY_GRAVE) || !modifiers::all_held(flags, modifiers::COMMAND) || modifiers::any_held(
            flags,
            modifiers::CONTROL,
        ) || modifiers::any_held(flags, modifiers::OPTION),
{
    modifiers::law_either_modifier(flags, modifiers::CONTROL, modifiers::OPTION);
}

// ---- Installing -------------------------------------------------------------

/// What the tap thread has already said while it waits.
#[derive(Clone, Copy, Debug, PartialEq, Eq, Structural)]
pub struct Waiting {
    /// That the Accessibility grant is missing.
    pub waited: bool,
    /// That the tap was refused in spite of the grant.
    pub failed: bool,
}

/// What happens while the tap is being installed.
#[derive(Clone, Copy, Debug, PartialEq, Eq, Structural)]
pub enum TapEvent {
    /// Whether Accessibility is granted was looked up.
    Checked { trusted: bool },
    /// The tap was tried, and the system refused it.
    Refused,
    /// The tap was tried, and is there.
    Created,
}

/// What the tap thread does next.
#[derive(Clone, Copy, Debug, PartialEq, Eq, Structural)]
pub enum Next {
    /// Try for the tap.
    Try,
    /// Attach the tap to the run loop; the installation is done.
    Attach,
    /// Sleep this long and look the grant up again; `say` when it is the first
    /// time.
    Retry { seconds: u64, say: bool },
}

/// The step after an event: what the thread does next and what it has said by
/// then. The tap is tried only once Accessibility is granted: an untrusted
/// attempt can raise a prompt.
pub open spec fn after_event(state: Waiting, event: TapEvent) -> (Waiting, Next) {
    match event {
        TapEvent::Checked { trusted: true } => (state, Next::Try),
        TapEvent::Checked { trusted: false } => (
            (Waiting { waited: true, ..state }),
            Next::Retry { seconds: 2, say: !state.waited },
        ),
        TapEvent::Refused => (
            (Waiting { failed: true, ..state }),
            Next::Retry { seconds: 60, say: !state.failed },
        ),
        TapEvent::Created => (state, Next::Attach),
    }
}

impl Waiting {
    /// Nothing has been said yet.
    pub fn new() -> (r: Waiting)
        ensures
            r == (Waiting { waited: false, failed: false }),
    {
        Waiting { waited: false, failed: false }
    }

    /// Decides what follows an event: a missing grant is looked for every two
    /// seconds, a refusal is followed up after a minute (each attempt could
    /// raise a prompt), and each is reported once.
    pub fn install(&mut self, event: TapEvent) -> (r: Next)
        ensures
            (*final(self), r) == after_event(*old(self), event),
    {
        match event {
            TapEvent::Checked { trusted } => {
                if trusted {
                    return Next::Try;
                }
                let say: bool = !self.waited;
                self.waited = true;
                Next::Retry { seconds: 2, say }
            },
            TapEvent::Refused => {
                let say: bool = !self.failed;
                self.failed = true;
                Next::Retry { seconds: 60, say }
            },
            TapEvent::Created => Next::Attach,
        }
    }
}

/// What a run of events leaves said, from `state` on.
pub open spec fn after_events(state: Waiting, events: Seq<TapEvent>) -> Waiting
    decreases events.len(),
{
    if events.len() == 0 {
        state
    } else {
        after_event(after_events(state, events.drop_last()), events.last()).0
    }
}

/// Each of the two complaints is made at most once: after the same event
/// anywhere before, the next one says nothing.
pub proof fn law_complains_once(state: Waiting, events: Seq<TapEvent>, event: TapEvent)
    requires
        events.contains(event),
    ensures
        after_event(after_events(state, events), event).1 matches Next::Retry { say, .. } ==> !say,
    decreases events.len(),
{
    if events.last() != event {
        let i = choose|i: int| 0 <= i < events.len() && events[i] == event;
        assert(events.drop_last()[i] == event);
        law_complains_once(state, events.drop_last(), event);
    }
}

/// The steps of an installation, where the grant is looked up with the answers
/// `trust` and the attempts have the outcomes `created`, one after the other:
/// the thread looks the grant up, tries where it is told to, and stops once it
/// is told to attach.
pub open spec fn steps(state: Waiting, trust: Seq<bool>, created: Seq<bool>) -> Seq<Next>
    decreases trust.len(),
{
    if trust.len() == 0 {
        Seq::empty()
    } else {
        let (checked, first) = after_event(state, TapEvent::Checked { trusted: trust[0] });
        if first is Try && created.len() > 0 {
            let outcome = if created[0] {
                TapEvent::Created
            } else {
                TapEvent::Refused
            };
            let (tried, second) = after_event(checked, outcome);
            if second is Attach {
                seq![first, second]
            } else {
                seq![first, second] + steps(tried, trust.drop_first(), created.drop_first())
            }
        } else if first is Try {
            seq![first]
        } else {
            seq![first] + steps(checked, trust.drop_first(), created)
        }
    }
}

/// How many attempts are among the steps.
pub open spec fn attempts(taken: Seq<Next>) -> nat {
    taken.filter(|n: Next| n is Try).len()
}

/// The tap is never tried while Accessibility is not granted: a look-up without
/// the grant is followed by the next one two seconds later. The first look-up
/// with the grant makes an attempt; one that is refused is followed by the next
/// look-up a minute later, and one that succeeds is the last step.
pub proof fn law_tried_once_trusted(state: Waiting, trust: Seq<bool>, created: Seq<bool>)
    requires
        trust.len() > 0,
    ensures
        ({
            let taken = steps(state, trust, created);
            &&& taken.len() > 0
            &&& taken[0] is Try <==> trust[0]
            &&& !trust[0] ==> taken[0] == (Next::Retry { seconds: 2, say: !state.waited })
                && taken.drop_first() == steps(
                (Waiting { waited: true, ..state }),
                trust.drop_first(),
                created,
            )
            &&& trust[0] && created.len() > 0 && created[0] ==> taken == seq![
                Next::Try,
                Next::Attach,
            ]
            &&& trust[0] && created.len() > 0 && !created[0] ==> taken.len() >= 2 && taken[1] == (
            Next::Retry { seconds: 60, say: !state.failed }) && taken.skip(2) == steps(
                (Waiting { failed: true, ..state }),
                trust.drop_first(),
                created.drop_first(),
            )
        }),
{
    let taken = steps(state, trust, created);
    if !trust[0] {
        let rest = steps((Waiting { waited: true, ..state }), trust.drop_first(), created);
        assert(taken.drop_first() =~= rest);
    } else if created.len() > 0 && !created[0] {
        let rest = steps(
            (Waiting { failed: true, ..state }),
            trust.drop_first(),
            created.drop_first(),
        );
        assert(taken.skip(2) =~= rest);
    }
}

/// No more attempts are made than look-ups found the grant.
pub proof fn law_attempts_need_the_grant(state: Waiting, trust: Seq<bool>, created: Seq<bool>)
    ensures
        attempts(steps(state, trust, created)) <= trust.filter(|t: bool| t).len(),
    decreases trust.len(),
{
    let tries = |n: Next| n is Try;
    let granted = |t: bool| t;
    let taken = steps(state, trust, created);
    if trust.len() == 0 {
        assert(taken.filter(tries) =~= Seq::empty());
    } else {
        let (checked, first) = after_event(state, TapEvent::Checked { trusted: trust[0] });
        assert(trust =~= seq![trust[0]] + trust.drop_first());
        Seq::filter_distributes_over_add(seq![trust[0]], trust.drop_first(), granted);
        lemma_filter_one(trust[0], granted);
        if first is Try && created.len() > 0 {
            let outcome = if created[0] {
                TapEvent::Created
            } else {
                TapEvent::Refused
            };
            let (tried, second) = after_event(checked, outcome);
            let head = seq![first, second];
            assert(head =~= seq![first] + seq![second]);
            Seq::filter_distributes_over_add(seq![first], seq![second], tries);
            lemma_filter_one(first, tries);
            lemma_filter_one(second, tries);
            if !(second is Attach) {
                let rest = steps(tried, trust.drop_first(), created.drop_first());
                Seq::filter_distributes_over_add(head, rest, tries);
                law_attempts_need_the_grant(tried, trust.drop_first(), created.drop_first());
            }
        } else if first is Try {
            lemma_filter_one(first, tries);
        } else {
            let rest = steps(checked, trust.drop_first(), created);
            Seq::filter_distributes_over_add(seq![first], rest, tries);
            lemma_filter_one(first, tries);
            law_attempts_need_the_grant(checked, trust.drop_first(), created);
        }
    }
}

proof fn lemma_filter_one<A>(x: A, p: spec_fn(A) -> bool)
    ensures
        seq![x].filter(p).len() == if p(x) {
            1nat
        } else {
            0nat
        },
{
    reveal_with_fuel(Seq::filter, 2);
    assert(seq![x].drop_last() =~= Seq::empty());
}

/// The tap asks the hub about ⌘Tab (key 48) and ⌘` (key 50), with or without ⇧,
/// where neither ⌃ nor ⌥ is held, and says whether ⇧ is.
pub proof fn law_what_the_tap_claims(flags: u64, code: i64)
    ensures
        ({
            let action = tap_action(EventKind::KeyDown, flags, code);
            let alone = flags & 0x10_0000 == 0x10_0000 && flags & 0x4_0000 == 0 && flags & 0x8_0000
                == 0;
            let shift = flags & 0x2_0000 == 0x2_0000;
            &&& alone && code == 48 ==> action == (TapAction::Press { key: Key::Tab, shift })
            &&& alone && code == 50 ==> action == (TapAction::Press { key: Key::Grave, shift })
            &&& !alone || (code != 48 && code != 50) ==> action == TapAction::Pass
        }),
{
    modifiers::law_either_modifier(flags, modifiers::CONTROL, modifiers::OPTION);
}

/// The tap tells the hub when ⌘ is up, switches itself back on when the system
/// switched it off, and passes on the rest.
pub proof fn law_other_events(flags: u64, code: i64)
    ensures
        flags & 0x10_0000 != 0x10_0000 ==> tap_action(EventKind::FlagsChanged, flags, code)
            == TapAction::CommandUp,
        flags & 0x10_0000 == 0x10_0000 ==> tap_action(EventKind::FlagsChanged, flags, code)
            == TapAction::Pass,
        tap_action(EventKind::DisabledByTimeout, flags, code) == TapAction::Reenable,
        tap_action(EventKind::DisabledByUserInput, flags, code) == TapAction::Reenable,
        tap_action(EventKind::Other, flags, code) == TapAction::Pass,
{
}

} // verus!
