//! What both ends of a session do with keyboard input.
use crate::buffer::{contents, frozen};
use crate::console::local_console::{scroll_target, scrolled_by, LocalConsole};
use crate::console::stdin::{
    input_step, KeyMode, LocalEvent, Outcome, StdinModel, StdinProcessor,
};
use crate::screen::{
    cursor_keys_on, history, mouse_mode, mouse_protocol_mode, on_alternate_screen, screen_size,
    scroll_offset, scrolled_screen, MouseMode,
};
use bytes::Bytes;
use vstd::prelude::*;
use vt100::Screen;

verus! {

/// Why a session breaks off.
#[derive(Debug, Clone, Copy, PartialEq, Eq, Structural)]
pub enum SessionError {
    /// The view is farther back in time than can be told to the other end.
    OffsetTooLarge,
}

/// What is to be done with a piece of keyboard input: first the local events, in order, then the
/// rest.
pub struct InputPlan {
    pub events: Vec<LocalEvent>,
    /// Bytes for the shell, unless the user leaves.
    pub forward: Option<Bytes>,
    /// Whether the view goes back to now, since keys were typed while it was back in time.
    pub reset: bool,
}

/// The mathematical value of an [`InputPlan`].
#[verifier::ext_equal]
pub ghost struct Plan {
    pub events: Seq<LocalEvent>,
    pub forward: Option<Seq<u8>>,
    pub reset: bool,
}

impl View for InputPlan {
    type V = Plan;

    open spec fn view(&self) -> Plan {
        Plan { events: self.events@, forward: contents(self.forward), reset: self.reset }
    }
}

/// What keys depend on, as a screen and the height of the local terminal have it.
pub open spec fn key_mode(row_offset: u16, s: Screen, page_rows: u16) -> KeyMode {
    KeyMode {
        row_offset,
        alt_screen: on_alternate_screen(s),
        mouse_on: mouse_mode(s) != MouseMode::Off,
        app_cursor: cursor_keys_on(s),
        page_size: page_rows as i32,
    }
}

/// The keyboard input as it stands, with what keys depend on taken from the screen.
pub open spec fn refreshed(m: StdinModel, s: Screen, page_rows: u16) -> StdinModel {
    StdinModel { mode: key_mode(m.mode.row_offset, s, page_rows), ..m }
}

/// Whether typing takes the view back to now: it does on the main screen, if something was typed
/// while the view was back in time.
pub open spec fn resets_view(s: Screen, sent: Seq<u8>) -> bool {
    !on_alternate_screen(s) && scroll_offset(s) > 0 && sent.len() > 0
}

/// The events up to the first detach chord, with it.
pub open spec fn up_to_detach(events: Seq<LocalEvent>) -> Seq<LocalEvent>
    decreases events.len(),
{
    if events.len() == 0 {
        Seq::empty()
    } else if events[0] == LocalEvent::Detach {
        seq![LocalEvent::Detach]
    } else {
        seq![events[0]] + up_to_detach(events.skip(1))
    }
}

/// What is to be done with keyboard input that has led to the given outcome. Once the user leaves,
/// nothing more is done: what came after the chord is not handled, and the shell gets nothing.
pub open spec fn plan_of(s: Screen, outcome: Outcome) -> Plan {
    if outcome.events.contains(LocalEvent::Detach) {
        Plan { events: up_to_detach(outcome.events), forward: None, reset: false }
    } else {
        Plan {
            events: outcome.events,
            forward: Some(outcome.sent),
            reset: resets_view(s, outcome.sent),
        }
    }
}

/// How many events there are up to the first detach chord, with it.
fn count_to_detach(events: &Vec<LocalEvent>) -> (r: Option<usize>)
    ensures
        match r {
            Some(n) => {
                &&& 0 < n <= events@.len()
                &&& events@[n - 1] == LocalEvent::Detach
                &&& forall|j: int| 0 <= j < n - 1 ==> #[trigger] events@[j] != LocalEvent::Detach
            },
            None => !events@.contains(LocalEvent::Detach),
        },
{
    let n: usize = events.len();
    let mut i: usize = 0;
    while i < n
        invariant
            i <= n,
            n == events@.len(),
            forall|j: int| 0 <= j < i ==> #[trigger] events@[j] != LocalEvent::Detach,
        decreases n - i,
    {
        if events[i] == LocalEvent::Detach {
            return Some(i + 1);
        }
        i += 1;
    }
    None
}

proof fn lemma_up_to_detach(events: Seq<LocalEvent>, i: int)
    requires
        0 <= i < events.len(),
        events[i] == LocalEvent::Detach,
        forall|j: int| 0 <= j < i ==> #[trigger] events[j] != LocalEvent::Detach,
    ensures
        up_to_detach(events) == events.take(i + 1),
    decreases i,
{
    if i == 0 {
        assert(events.take(1) =~= seq![LocalEvent::Detach]);
    } else {
        let rest = events.skip(1);
        assert forall|j: int| 0 <= j < i - 1 implies #[trigger] rest[j] != LocalEvent::Detach by {
            assert(rest[j] == events[j + 1]);
        }
        lemma_up_to_detach(rest, i - 1);
        assert(seq![events[0]] + rest.take(i) =~= events.take(i + 1));
    }
}

/// Sorts a piece of keyboard input.
pub fn plan_input(
    stdin: &mut StdinProcessor,
    screen: &Screen,
    page_rows: u16,
    input: &[u8],
) -> (r: InputPlan)
    requires
        old(stdin).wf(),
    ensures
        final(stdin).wf(),
        final(stdin).model() == input_step(
            refreshed(old(stdin).model(), *screen, page_rows),
            input@,
        ).0,
        r@ == plan_of(
            *screen,
            input_step(refreshed(old(stdin).model(), *screen, page_rows), input@).1,
        ),
{
    let alt_screen: bool = screen.alternate_screen();
    let mouse_on: bool = match mouse_protocol_mode(screen) {
        MouseMode::Off => false,
        _ => true,
    };
    let scrolled: bool = screen.scrollback() > 0;
    stdin.set_state(alt_screen, mouse_on, page_rows as i32, screen.application_cursor());
    let (events, forward) = stdin.process(input);
    match count_to_detach(&events) {
        Some(n) => {
            let ghost all = events@;
            let mut events: Vec<LocalEvent> = events;
            events.truncate(n);
            proof {
                assert(all.contains(LocalEvent::Detach));
                lemma_up_to_detach(all, n - 1);
                assert(events@ =~= all.take(n as int));
            }
            InputPlan { events, forward: None, reset: false }
        },
        None => {
            let reset: bool = !alt_screen && scrolled && !forward.is_empty();
            InputPlan { events, forward: Some(forward), reset }
        },
    }
}

/// Input with the detach chord leaves the session cleanly: the chord is the last event that is
/// handled, it is handled once, and nothing of the input reaches the shell.
pub proof fn lemma_detach_forwards_nothing(s: Screen, outcome: Outcome)
    requires
        outcome.events.contains(LocalEvent::Detach),
    ensures
        ({
            let plan = plan_of(s, outcome);
            &&& plan.forward is None
            &&& !plan.reset
            &&& plan.events.len() > 0
            &&& plan.events.last() == LocalEvent::Detach
            &&& !plan.events.drop_last().contains(LocalEvent::Detach)
            &&& plan.events.is_prefix_of(outcome.events)
        }),
{
    let events = outcome.events;
    let i = first_detach(events);
    lemma_first_detach(events);
    lemma_up_to_detach(events, i);
    let plan = plan_of(s, outcome);
    assert(plan.events.last() == events[i]);
    assert(plan.events.drop_last() =~= events.take(i));
}

/// Where the first detach chord is, the end if there is none.
spec fn first_detach(events: Seq<LocalEvent>) -> int
    decreases events.len(),
{
    if events.len() == 0 || events[0] == LocalEvent::Detach {
        0
    } else {
        1 + first_detach(events.skip(1))
    }
}

proof fn lemma_first_detach(events: Seq<LocalEvent>)
    requires
        events.contains(LocalEvent::Detach),
    ensures
        0 <= first_detach(events) < events.len(),
        events[first_detach(events)] == LocalEvent::Detach,
        forall|j: int|
            0 <= j < first_detach(events) ==> #[trigger] events[j] != LocalEvent::Detach,
    decreases events.len(),
{
    let k = choose|k: int| 0 <= k < events.len() && events[k] == LocalEvent::Detach;
    if events[0] != LocalEvent::Detach {
        let rest = events.skip(1);
        assert(rest[k - 1] == LocalEvent::Detach);
        lemma_first_detach(rest);
        assert forall|j: int| 0 <= j < first_detach(events) implies #[trigger] events[j]
            != LocalEvent::Detach by {
            if j > 0 {
                assert(events[j] == rest[j - 1]);
            }
        }
    }
}

/// Input without the detach chord is handled to the last event, and all that is meant for the shell
/// reaches it.
pub proof fn lemma_other_input_is_forwarded(s: Screen, outcome: Outcome)
    requires
        !outcome.events.contains(LocalEvent::Detach),
    ensures
        plan_of(s, outcome).events == outcome.events,
        plan_of(s, outcome).forward == Some(outcome.sent),
{
}

/// Moves the view by so many lines. Returns how many lines back in time it then is, in the form in
/// which the other end is told.
pub fn scroll_view(screen: &mut Screen, delta: i32) -> (r: Result<u16, SessionError>)
    ensures
        *final(screen) == scrolled_screen(
            *old(screen),
            scroll_target(scroll_offset(*old(screen)), delta as isize),
        ),
        scroll_offset(*final(screen)) == scrolled_by(
            scroll_offset(*old(screen)),
            delta as isize,
            history(*old(screen)),
        ),
        history(*final(screen)) == history(*old(screen)),
        screen_size(*final(screen)) == screen_size(*old(screen)),
        r is Ok <==> scroll_offset(*final(screen)) <= u16::MAX,
        r matches Ok(offset) ==> offset == scroll_offset(*final(screen)),
        r matches Err(e) ==> e == SessionError::OffsetTooLarge,
{
    let offset: usize = LocalConsole::apply_scroll(screen, delta as isize);
    if offset <= u16::MAX as usize {
        Ok(offset as u16)
    } else {
        Err(SessionError::OffsetTooLarge)
    }
}

/// Typing takes the view back to now just where the user does not leave, something reaches the shell,
/// the view is back in time, and the remote program has not taken over the screen.
pub proof fn lemma_when_the_view_goes_back(s: Screen, outcome: Outcome)
    ensures
        plan_of(s, outcome).reset <==> !outcome.events.contains(LocalEvent::Detach)
            && outcome.sent.len() > 0 && scroll_offset(s) != 0 && !on_alternate_screen(s),
{
}

/// Keys go by what the screen is like now and by how high the terminal is now. Where the reading of
/// the input stands does not change.
pub proof fn lemma_keys_follow_the_screen(m: StdinModel, s: Screen, page_rows: u16)
    ensures
        ({
            let now = refreshed(m, s, page_rows);
            &&& now.parser == m.parser
            &&& now.saw_escape == m.saw_escape
            &&& now.mode.row_offset == m.mode.row_offset
            &&& now.mode.alt_screen == on_alternate_screen(s)
            &&& now.mode.mouse_on <==> mouse_mode(s) != MouseMode::Off
            &&& now.mode.app_cursor == cursor_keys_on(s)
            &&& now.mode.page_size == page_rows
        }),
{
}

/// A plan tells the events, the bytes for the shell, and whether the view goes back.
pub proof fn lemma_plan_tells_what_is_done(plan: InputPlan)
    ensures
        plan@.events == plan.events@,
        plan.forward is None <==> plan@.forward is None,
        plan.forward matches Some(bytes) ==> plan@.forward == Some(frozen(bytes)),
        plan@.reset == plan.reset,
{
}

} // verus!
