//! The end of a session that shares its shell: what it does when something happens.
use crate::buffer::{bytes_from_vec, contents, frozen, if_any};
use crate::console::clipboard::{clipboard_actions, Osc52Extractor};
use crate::console::local_console::{scroll_target, scrolled_by, LocalConsole};
use crate::console::negotiator::{
    clock_shows, deadline_after, is_best, lemma_best_is_visible, live, HelperLifetime,
    TerminalSizeNegotiator,
};
use crate::console::responder::{replies, Identity, PtyResponder};
use crate::console::stdin::{input_step, KeyMode, LocalEvent, StdinModel, StdinProcessor};
use crate::protocol::{HelperMessage, PtySize, ToHelper, ToVictim, VictimMessage};
use crate::screen::{
    cursor, history, resized_screen, screen_size, scroll_offset, scrolled_screen,
};
use crate::session::{
    plan_input, plan_of, refreshed, scroll_view, InputPlan, SessionError,
};
use crate::time::MAX_NANOS;
use crate::vt::{advanced, fresh_parser, OSC_RAW_BUF_SIZE};
use bytes::Bytes;
use std::time::Instant;
use vstd::prelude::*;
use vt100::Screen;

verus! {

/// What the victim does.
pub enum VictimAction {
    /// Draws the local terminal.
    Render,
    /// Tells all helpers.
    Broadcast(ToHelper),
    /// Types into the shell.
    WritePty(Bytes),
    /// Writes to the local terminal.
    WriteStdout(Bytes),
    /// Gives the shell another screen size.
    ResizePty(PtySize),
    /// Ends the session, after the farewell of [`Victim::on_exit`].
    Exit,
}

/// The mathematical value of a [`VictimAction`].
pub ghost enum VictimDeed {
    Render,
    Broadcast(HelperMessage),
    WritePty(Seq<u8>),
    WriteStdout(Seq<u8>),
    ResizePty(PtySize),
    Exit,
}

impl View for VictimAction {
    type V = VictimDeed;

    open spec fn view(&self) -> VictimDeed {
        match *self {
            VictimAction::Render => VictimDeed::Render,
            VictimAction::Broadcast(message) => VictimDeed::Broadcast(message@),
            VictimAction::WritePty(bytes) => VictimDeed::WritePty(frozen(bytes)),
            VictimAction::WriteStdout(bytes) => VictimDeed::WriteStdout(frozen(bytes)),
            VictimAction::ResizePty(size) => VictimDeed::ResizePty(size),
            VictimAction::Exit => VictimDeed::Exit,
        }
    }
}

/// The mathematical values of a list of actions.
pub open spec fn deeds(actions: Seq<VictimAction>) -> Seq<VictimDeed> {
    actions.map_values(|a: VictimAction| a@)
}

/// Everything that what the victim does next depends on.
#[verifier::ext_equal]
pub ghost struct VictimModel {
    pub stdin: StdinModel,
    pub identity: Identity,
    /// Where the reading of queries in the output stands.
    pub queries: vte::Parser,
    /// Where the reading of clipboard writes in the output stands.
    pub clipboard: vte::Parser,
    /// The number of helpers that the helpers have been told.
    pub connected: u8,
    /// Whether helpers may only watch.
    pub read_only: bool,
    pub local: PtySize,
    pub helpers: Map<u64, HelperLifetime>,
    /// When the clock was started by which helpers are timed.
    pub started: Instant,
}

impl VictimModel {
    /// Whether the clock by which helpers are timed shows the given time at some moment.
    pub open spec fn is_time(self, t: u128) -> bool {
        clock_shows(self.started, t)
    }

    /// Whether all known terminals have a row and a column.
    pub open spec fn visible(self) -> bool {
        &&& self.local.visible()
        &&& forall|id: u64|
            self.helpers.contains_key(id) ==> (#[trigger] self.helpers[id]).size.visible()
    }
}

/// The number of helpers is told when it has changed.
pub open spec fn statusbar_deeds(told: u8, connected: u8) -> Seq<VictimDeed> {
    if connected != told {
        seq![
            VictimDeed::Render,
            VictimDeed::Broadcast(HelperMessage::ConnectedHelpers(connected)),
        ]
    } else {
        seq![VictimDeed::Render]
    }
}

/// Output of the shell: its queries are answered, clipboard writes go to the local terminal, and all
/// helpers get it.
pub open spec fn output_deeds(
    reply: Option<Seq<u8>>,
    clip: Option<Seq<u8>>,
    chunk: Seq<u8>,
) -> Seq<VictimDeed> {
    (match reply {
        Some(bytes) => seq![VictimDeed::WritePty(bytes)],
        None => Seq::empty(),
    }) + (match clip {
        Some(bytes) => seq![VictimDeed::WriteStdout(bytes)],
        None => Seq::empty(),
    }) + seq![VictimDeed::Broadcast(HelperMessage::Data(chunk)), VictimDeed::Render]
}

/// The view has moved: all helpers follow.
pub open spec fn scroll_deeds(offset: u16) -> Seq<VictimDeed> {
    seq![VictimDeed::Broadcast(HelperMessage::ScrollTo { offset }), VictimDeed::Render]
}

/// The rest of the keyboard input: the view goes back to now where it has to, and the shell gets the
/// keys.
pub open spec fn forward_deeds(reset: bool, forward: Seq<u8>) -> Seq<VictimDeed> {
    (if reset {
        scroll_deeds(0)
    } else {
        Seq::empty()
    }) + seq![VictimDeed::WritePty(forward)]
}

/// The shared screen has another size, as a helper has told its own.
pub open spec fn hint_deeds(size: PtySize) -> Seq<VictimDeed> {
    seq![
        VictimDeed::ResizePty(size),
        VictimDeed::Broadcast(HelperMessage::SetSize(size)),
        VictimDeed::Render,
    ]
}

/// The shared screen has another size, as a helper has left.
pub open spec fn bye_deeds(size: PtySize) -> Seq<VictimDeed> {
    seq![
        VictimDeed::Broadcast(HelperMessage::SetSize(size)),
        VictimDeed::ResizePty(size),
        VictimDeed::Render,
    ]
}

/// The farewell: all helpers are told that the session ends.
pub open spec fn exit_deeds() -> Seq<VictimDeed> {
    seq![VictimDeed::Broadcast(HelperMessage::Bye)]
}

/// Keystrokes of a helper reach the shell, unless helpers may only watch.
pub open spec fn data_deeds(read_only: bool, bytes: Seq<u8>) -> Seq<VictimDeed> {
    if read_only {
        Seq::empty()
    } else {
        seq![VictimDeed::WritePty(bytes)]
    }
}

/// The helpers after a message: one that tells its size counts from then on, one that leaves no
/// longer does, and those that have not been heard from are forgotten.
pub open spec fn helpers_after(
    helpers: Map<u64, HelperLifetime>,
    message: VictimMessage,
    first: u128,
    now: u128,
) -> Map<u64, HelperLifetime> {
    match message {
        VictimMessage::SizeHint { id, size } => live(
            helpers.insert(id.0, HelperLifetime { size, deadline: deadline_after(first) }),
            now,
        ),
        VictimMessage::Bye { id } => live(live(helpers.remove(id.0), first), now),
        _ => helpers,
    }
}

/// What a message of a helper leads to, where `best` is the size of the shared screen afterwards.
pub open spec fn message_deeds(
    read_only: bool,
    message: VictimMessage,
    best: PtySize,
) -> Seq<VictimDeed> {
    match message {
        VictimMessage::Data(bytes) => data_deeds(read_only, bytes),
        VictimMessage::SizeHint { id, size } => hint_deeds(best),
        VictimMessage::Bye { id } => bye_deeds(best),
        VictimMessage::RequestScrollTo { offset } => scroll_deeds(offset),
    }
}

/// Whether a message changes the size of the shared screen.
pub open spec fn changes_size(message: VictimMessage) -> bool {
    message is SizeHint || message is Bye
}

/// What becomes of the screen when a message is handled.
pub open spec fn screen_after_message(
    before: Screen,
    after: Screen,
    message: VictimMessage,
    best: PtySize,
) -> bool {
    match message {
        VictimMessage::Data(bytes) => after == before,
        VictimMessage::SizeHint { id, size } => {
            &&& after == resized_screen(before, best.rows, best.cols)
            &&& screen_size(after) == (best.rows, best.cols)
            &&& scroll_offset(after) == scroll_offset(before)
        },
        VictimMessage::Bye { id } => {
            &&& after == resized_screen(before, best.rows, best.cols)
            &&& screen_size(after) == (best.rows, best.cols)
            &&& scroll_offset(after) == scroll_offset(before)
        },
        VictimMessage::RequestScrollTo { offset } => {
            &&& after == scrolled_screen(before, offset as usize)
            &&& screen_size(after) == screen_size(before)
            &&& scroll_offset(after) == (if offset <= history(before) {
                offset as nat
            } else {
                history(before)
            })
        },
    }
}

/// The end of a session that shares its shell.
pub struct Victim {
    stdin: StdinProcessor,
    responder: PtyResponder,
    clipboard: Osc52Extractor,
    negotiator: TerminalSizeNegotiator,
    connected: u8,
    read_only_helper: bool,
}

impl Victim {
    /// Everything that what the victim does next depends on.
    pub closed spec fn model(self) -> VictimModel {
        VictimModel {
            stdin: self.stdin.model(),
            identity: self.responder.identity(),
            queries: self.responder.parser(),
            clipboard: self.clipboard.parser(),
            connected: self.connected,
            read_only: self.read_only_helper,
            local: self.negotiator.local(),
            helpers: self.negotiator.helpers(),
            started: self.negotiator.started(),
        }
    }

    /// Nothing is left over from earlier input or output, and all known terminals have a row and a
    /// column.
    pub closed spec fn wf(self) -> bool {
        self.stdin.wf() && self.responder.wf() && self.model().visible()
    }

    /// A victim without helpers.
    pub fn new(
        local_size: PtySize,
        read_only_helper: bool,
        program: String,
        version: String,
        direct: bool,
    ) -> (r: Self)
        requires
            local_size.visible(),
        ensures
            r.wf(),
            r.model() == (VictimModel {
                stdin: StdinModel {
                    mode: KeyMode {
                        row_offset: 1,
                        alt_screen: false,
                        mouse_on: false,
                        app_cursor: false,
                        page_size: local_size.rows as i32,
                    },
                    parser: fresh_parser(OSC_RAW_BUF_SIZE as nat),
                    saw_escape: false,
                },
                identity: Identity { program: program@, version: version@, direct },
                queries: fresh_parser(OSC_RAW_BUF_SIZE as nat),
                clipboard: fresh_parser(OSC_RAW_BUF_SIZE as nat),
                connected: 0,
                read_only: read_only_helper,
                local: local_size,
                helpers: Map::empty(),
                started: r.model().started,
            }),
    {
        Victim {
            stdin: StdinProcessor::new(local_size.rows as i32),
            responder: PtyResponder::new(program, version, direct),
            clipboard: Osc52Extractor::default(),
            negotiator: TerminalSizeNegotiator::new(local_size),
            connected: 0,
            read_only_helper,
        }
    }

    /// The status bar has changed. So many helpers are connected now.
    pub fn on_statusbar(&mut self, connected: u8) -> (r: Vec<VictimAction>)
        requires
            old(self).wf(),
        ensures
            final(self).wf(),
            final(self).model() == (VictimModel { connected, ..old(self).model() }),
            deeds(r@) == statusbar_deeds(old(self).model().connected, connected),
    {
        let mut actions: Vec<VictimAction> = vec![VictimAction::Render];
        if connected != self.connected {
            actions.push(VictimAction::Broadcast(ToHelper::ConnectedHelpers(connected)));
            self.connected = connected;
        }
        assert(deeds(actions@) =~= statusbar_deeds(old(self).model().connected, connected));
        actions
    }

    /// The shell has written something, which the screen shows already.
    pub fn on_output(&mut self, chunk: Vec<u8>, screen: &Screen) -> (r: Vec<VictimAction>)
        requires
            old(self).wf(),
        ensures
            final(self).wf(),
            final(self).model() == (VictimModel {
                queries: advanced(old(self).model().queries, chunk@).1,
                clipboard: advanced(old(self).model().clipboard, chunk@).1,
                ..old(self).model()
            }),
            deeds(r@) == output_deeds(
                if_any(
                    replies(
                        old(self).model().identity,
                        cursor(*screen),
                        advanced(old(self).model().queries, chunk@).0,
                    ),
                ),
                if_any(clipboard_actions(advanced(old(self).model().clipboard, chunk@).0)),
                chunk@,
            ),
    {
        let ghost m = self.model();
        let ghost written = chunk@;
        let reply: Option<Bytes> = self.responder.process(chunk.as_slice(), screen);
        let clip: Option<Bytes> = self.clipboard.extract(chunk.as_slice());
        let actions: Vec<VictimAction> = output_actions(reply, clip, chunk);
        proof {
            let said = replies(m.identity, cursor(*screen), advanced(m.queries, written).0);
            let copied = clipboard_actions(advanced(m.clipboard, written).0);
            assert(deeds(actions@) == output_deeds(if_any(said), if_any(copied), written));
        }
        actions
    }

    /// The user has typed something.
    pub fn on_stdin(&mut self, input: &[u8], screen: &Screen, page_rows: u16) -> (r: InputPlan)
        requires
            old(self).wf(),
        ensures
            final(self).wf(),
            ({
                let (stdin, outcome) = input_step(
                    refreshed(old(self).model().stdin, *screen, page_rows),
                    input@,
                );
                &&& final(self).model() == (VictimModel { stdin, ..old(self).model() })
                &&& r@ == plan_of(*screen, outcome)
            }),
    {
        plan_input(&mut self.stdin, screen, page_rows, input)
    }

    /// An event of the keyboard input: the user leaves, or moves the view.
    pub fn on_local_event(event: LocalEvent, screen: &mut Screen) -> (r: Result<
        Vec<VictimAction>,
        SessionError,
    >)
        ensures
            match event {
                LocalEvent::Detach => {
                    &&& *final(screen) == *old(screen)
                    &&& r matches Ok(actions) && deeds(actions@) == seq![VictimDeed::Exit]
                },
                LocalEvent::Scroll(delta) => {
                    let offset = scrolled_by(
                        scroll_offset(*old(screen)),
                        delta as isize,
                        history(*old(screen)),
                    );
                    &&& *final(screen) == scrolled_screen(
                        *old(screen),
                        scroll_target(scroll_offset(*old(screen)), delta as isize),
                    )
                    &&& scroll_offset(*final(screen)) == offset
                    &&& screen_size(*final(screen)) == screen_size(*old(screen))
                    &&& if offset <= u16::MAX {
                        r matches Ok(actions) && deeds(actions@) == scroll_deeds(offset as u16)
                    } else {
                        r == Err::<Vec<VictimAction>, SessionError>(SessionError::OffsetTooLarge)
                    }
                },
            },
    {
        match event {
            LocalEvent::Detach => {
                let actions: Vec<VictimAction> = vec![VictimAction::Exit];
                assert(deeds(actions@) =~= seq![VictimDeed::Exit]);
                Ok(actions)
            },
            LocalEvent::Scroll(delta) => match scroll_view(screen, delta) {
                Ok(offset) => Ok(scroll_actions(offset)),
                Err(e) => Err(e),
            },
        }
    }

    /// The rest of the keyboard input, once its events have been handled.
    pub fn on_forward(reset: bool, forward: Bytes, screen: &mut Screen) -> (r: Vec<VictimAction>)
        ensures
            deeds(r@) == forward_deeds(reset, frozen(forward)),
            *final(screen) == (if reset {
                scrolled_screen(*old(screen), 0)
            } else {
                *old(screen)
            }),
            screen_size(*final(screen)) == screen_size(*old(screen)),
            scroll_offset(*final(screen)) == (if reset {
                0
            } else {
                scroll_offset(*old(screen))
            }),
    {
        let ghost sent = frozen(forward);
        let mut actions: Vec<VictimAction> = Vec::new();
        if reset {
            screen.set_scrollback(0);
            actions = scroll_actions(0);
        }
        let ghost before = actions@;
        actions.push(VictimAction::WritePty(forward));
        proof {
            assert(deeds(actions@) =~= deeds(before) + seq![VictimDeed::WritePty(sent)]);
            if !reset {
                assert(deeds(before) =~= Seq::<VictimDeed>::empty());
            }
        }
        actions
    }

    /// A helper has sent a message.
    pub fn on_message(&mut self, message: ToVictim, screen: &mut Screen, local_size: PtySize) -> (r:
        Vec<VictimAction>)
        requires
            old(self).wf(),
            changes_size(message@) ==> screen_size(*old(screen)).0 >= 1,
            message@ matches VictimMessage::SizeHint { id, size } ==> size.visible(),
            message@ is Bye ==> local_size.visible(),
        ensures
            final(self).wf(),
            exists|best: PtySize, first: u128, now: u128| #[trigger]
                is_outcome(
                    old(self).model(),
                    final(self).model(),
                    *old(screen),
                    *final(screen),
                    message@,
                    local_size,
                    first,
                    now,
                    best,
                ) && old(self).model().is_time(first) && old(self).model().is_time(now) && deeds(
                    r@,
                ) == message_deeds(old(self).model().read_only, message@, best),
    {
        let first: u128 = self.negotiator.clock();
        let now: u128 = self.negotiator.clock();
        self.on_message_at(message, screen, local_size, first, now)
    }

    /// A helper has sent a message. It is handled at time `first`; the size of the shared screen is
    /// found at `now`.
    pub fn on_message_at(
        &mut self,
        message: ToVictim,
        screen: &mut Screen,
        local_size: PtySize,
        first: u128,
        now: u128,
    ) -> (r: Vec<VictimAction>)
        requires
            old(self).wf(),
            changes_size(message@) ==> screen_size(*old(screen)).0 >= 1,
            message@ matches VictimMessage::SizeHint { id, size } ==> size.visible(),
            message@ is Bye ==> local_size.visible(),
            first <= MAX_NANOS,
        ensures
            final(self).wf(),
            exists|best: PtySize| #[trigger]
                is_outcome(
                    old(self).model(),
                    final(self).model(),
                    *old(screen),
                    *final(screen),
                    message@,
                    local_size,
                    first,
                    now,
                    best,
                ) && deeds(r@) == message_deeds(old(self).model().read_only, message@, best),
    {
        let ghost m = self.model();
        let ghost said = message@;
        let ghost before = *screen;
        match message {
            ToVictim::Data(bytes) => {
                let mut actions: Vec<VictimAction> = Vec::new();
                if !self.read_only_helper {
                    actions.push(VictimAction::WritePty(bytes));
                }
                let ghost best = self.model().local;
                assert(deeds(actions@) =~= message_deeds(m.read_only, said, best));
                assert(is_outcome(m, self.model(), before, *screen, said, local_size, first, now, best));
                actions
            },
            ToVictim::SizeHint { id, size } => {
                let best: PtySize = self.negotiator.update_helper_at(id, size, first, now);
                proof {
                    let helpers = self.model().helpers;
                    assert forall|k: u64| helpers.contains_key(k) implies (
                    #[trigger] helpers[k]).size.visible() by {
                        if k != id.0 {
                            assert(m.helpers.contains_key(k) && helpers[k] == m.helpers[k]);
                        }
                    }
                    lemma_best_is_visible(best, self.model().local, self.model().helpers);
                }
                LocalConsole::resize_parser(screen, best);
                let actions: Vec<VictimAction> = vec![
                    VictimAction::ResizePty(best),
                    VictimAction::Broadcast(ToHelper::SetSize(best)),
                    VictimAction::Render,
                ];
                assert(deeds(actions@) =~= message_deeds(m.read_only, said, best));
                assert(is_outcome(m, self.model(), before, *screen, said, local_size, first, now, best));
                actions
            },
            ToVictim::Bye { id } => {
                self.negotiator.remove_helper_at(id, first);
                let best: PtySize = self.negotiator.update_local_at(local_size, now);
                proof {
                    assert(self.model().visible());
                    lemma_best_is_visible(best, self.model().local, self.model().helpers);
                }
                LocalConsole::resize_parser(screen, best);
                let actions: Vec<VictimAction> = vec![
                    VictimAction::Broadcast(ToHelper::SetSize(best)),
                    VictimAction::ResizePty(best),
                    VictimAction::Render,
                ];
                assert(deeds(actions@) =~= message_deeds(m.read_only, said, best));
                assert(is_outcome(m, self.model(), before, *screen, said, local_size, first, now, best));
                actions
            },
            ToVictim::RequestScrollTo { offset } => {
                screen.set_scrollback(offset as usize);
                let actions: Vec<VictimAction> = scroll_actions(offset);
                let ghost best = self.model().local;
                assert(is_outcome(m, self.model(), before, *screen, said, local_size, first, now, best));
                actions
            },
        }
    }

    /// The local terminal has another size.
    pub fn on_window_change(&mut self, screen: &mut Screen, local_size: PtySize) -> (r: Vec<
        VictimAction,
    >)
        requires
            old(self).wf(),
            local_size.visible(),
            screen_size(*old(screen)).0 >= 1,
        ensures
            final(self).wf(),
            exists|best: PtySize, now: u128|
                #![trigger live(old(self).model().helpers, now), hint_deeds(best)]
                final(self).model() == (VictimModel {
                    local: local_size,
                    helpers: live(old(self).model().helpers, now),
                    ..old(self).model()
                }) && old(self).model().is_time(now) && is_best(best, local_size, live(old(self).model().helpers, now))
                    && *final(screen) == resized_screen(*old(screen), best.rows, best.cols)
                    && screen_size(*final(screen)) == (best.rows, best.cols) && deeds(r@)
                    == hint_deeds(best),
    {
        let now: u128 = self.negotiator.clock();
        let best: PtySize = self.negotiator.update_local_at(local_size, now);
        proof {
            assert(self.model().visible());
            lemma_best_is_visible(best, self.model().local, self.model().helpers);
        }
        LocalConsole::resize_parser(screen, best);
        let actions: Vec<VictimAction> = vec![
            VictimAction::ResizePty(best),
            VictimAction::Broadcast(ToHelper::SetSize(best)),
            VictimAction::Render,
        ];
        assert(deeds(actions@) =~= hint_deeds(best));
        assert(self.model() =~= (VictimModel {
            local: local_size,
            helpers: live(old(self).model().helpers, now),
            ..old(self).model()
        }));
        actions
    }

    /// The session ends.
    pub fn on_exit() -> (r: Vec<VictimAction>)
        ensures
            deeds(r@) == exit_deeds(),
    {
        let r: Vec<VictimAction> = vec![VictimAction::Broadcast(ToHelper::Bye)];
        assert(deeds(r@) =~= exit_deeds());
        r
    }
}

/// What holds after a message has been handled at time `first`, and the size of the shared screen has
/// been found at `now` to be `best`.
pub open spec fn is_outcome(
    before: VictimModel,
    after: VictimModel,
    screen_before: Screen,
    screen_after: Screen,
    message: VictimMessage,
    local_size: PtySize,
    first: u128,
    now: u128,
    best: PtySize,
) -> bool {
    &&& after == (VictimModel {
        local: if message is Bye {
            local_size
        } else {
            before.local
        },
        helpers: helpers_after(before.helpers, message, first, now),
        ..before
    })
    &&& changes_size(message) ==> is_best(best, after.local, after.helpers)
    &&& screen_after_message(screen_before, screen_after, message, best)
}

fn scroll_actions(offset: u16) -> (r: Vec<VictimAction>)
    ensures
        deeds(r@) == scroll_deeds(offset),
{
    let r: Vec<VictimAction> = vec![
        VictimAction::Broadcast(ToHelper::ScrollTo { offset }),
        VictimAction::Render,
    ];
    assert(deeds(r@) =~= scroll_deeds(offset));
    r
}

/// What output of the shell leads to, where `reply` answers its queries and `clip` is the clipboard
/// writes in it.
pub fn output_actions(reply: Option<Bytes>, clip: Option<Bytes>, chunk: Vec<u8>) -> (r: Vec<
    VictimAction,
>)
    ensures
        deeds(r@) == output_deeds(contents(reply), contents(clip), chunk@),
{
    let ghost said = contents(reply);
    let ghost copied = contents(clip);
    let ghost written = chunk@;
    let mut actions: Vec<VictimAction> = Vec::new();
    if let Some(bytes) = reply {
        actions.push(VictimAction::WritePty(bytes));
    }
    if let Some(bytes) = clip {
        actions.push(VictimAction::WriteStdout(bytes));
    }
    actions.push(VictimAction::Broadcast(ToHelper::Data(bytes_from_vec(chunk))));
    actions.push(VictimAction::Render);
    assert(deeds(actions@) =~= output_deeds(said, copied, written));
    actions
}

/// Where helpers may only watch, no message of theirs types anything into the shell.
pub proof fn lemma_watchers_type_nothing(message: VictimMessage, best: PtySize)
    ensures
        forall|i: int|
            0 <= i < message_deeds(true, message, best).len() ==> !(#[trigger] message_deeds(
                true,
                message,
                best,
            )[i] is WritePty),
{
}

/// When the size of the shared screen changes, the shell gets the size that the helpers are told.
pub proof fn lemma_shell_and_helpers_get_one_size(
    read_only: bool,
    message: VictimMessage,
    best: PtySize,
)
    requires
        changes_size(message),
    ensures
        message_deeds(read_only, message, best).contains(VictimDeed::ResizePty(best)),
        message_deeds(read_only, message, best).contains(
            VictimDeed::Broadcast(HelperMessage::SetSize(best)),
        ),
        forall|size: PtySize|
            message_deeds(read_only, message, best).contains(VictimDeed::ResizePty(size)) ==> size
                == best,
        forall|size: PtySize| #[trigger]
            message_deeds(read_only, message, best).contains(
                VictimDeed::Broadcast(HelperMessage::SetSize(size)),
            ) ==> size == best,
{
    let d = message_deeds(read_only, message, best);
    if message is Bye {
        assert(d[0] == VictimDeed::Broadcast(HelperMessage::SetSize(best)));
        assert(d[1] == VictimDeed::ResizePty(best));
    } else {
        assert(d[0] == VictimDeed::ResizePty(best));
        assert(d[1] == VictimDeed::Broadcast(HelperMessage::SetSize(best)));
    }
}

/// The number of helpers is told when it changes, and only then.
pub proof fn lemma_helpers_told_on_change(told: u8, connected: u8)
    ensures
        statusbar_deeds(told, connected).contains(
            VictimDeed::Broadcast(HelperMessage::ConnectedHelpers(connected)),
        ) <==> connected != told,
{
    if connected != told {
        assert(statusbar_deeds(told, connected)[1] == VictimDeed::Broadcast(
            HelperMessage::ConnectedHelpers(connected),
        ));
    }
}

/// Whatever the shell writes, all helpers get every byte of it, once.
pub proof fn lemma_helpers_get_all_output(
    reply: Option<Seq<u8>>,
    clip: Option<Seq<u8>>,
    chunk: Seq<u8>,
)
    ensures
        ({
            let d = output_deeds(reply, clip, chunk);
            let n = d.len() as int;
            &&& d[n - 2] == VictimDeed::Broadcast(HelperMessage::Data(chunk))
            &&& d[n - 1] == VictimDeed::Render
            &&& forall|i: int| 0 <= i < n - 2 ==> !(#[trigger] d[i] is Broadcast)
        }),
{
}

/// The shell gets just the answers to its queries, and the local terminal just the clipboard writes,
/// both before the screen is drawn again.
pub proof fn lemma_answers_and_writes_go_where_they_belong(
    reply: Option<Seq<u8>>,
    clip: Option<Seq<u8>>,
    chunk: Seq<u8>,
    bytes: Seq<u8>,
)
    ensures
        ({
            let d = output_deeds(reply, clip, chunk);
            let n: int = (if reply is Some {
                1int
            } else {
                0
            }) + (if clip is Some {
                1int
            } else {
                0
            });
            &&& d.len() == n + 2
            &&& d.contains(VictimDeed::WritePty(bytes)) <==> reply == Some(bytes)
            &&& d.contains(VictimDeed::WriteStdout(bytes)) <==> clip == Some(bytes)
            &&& d[n] == VictimDeed::Broadcast(HelperMessage::Data(chunk))
            &&& d[n + 1] == VictimDeed::Render
        }),
{
    let d = output_deeds(reply, clip, chunk);
    if reply is Some {
        assert(d[0] == VictimDeed::WritePty(reply->Some_0));
    }
    if clip is Some {
        let k = if reply is Some {
            1int
        } else {
            0int
        };
        assert(d[k] == VictimDeed::WriteStdout(clip->Some_0));
    }
}

/// What is typed reaches the shell, all of it and nothing else, and last. Where the view goes back to
/// now, the helpers are told before.
pub proof fn lemma_typing_reaches_the_shell(reset: bool, forward: Seq<u8>)
    ensures
        !reset ==> forward_deeds(reset, forward) == seq![VictimDeed::WritePty(forward)],
        reset ==> forward_deeds(reset, forward) == seq![
            VictimDeed::Broadcast(HelperMessage::ScrollTo { offset: 0 }),
            VictimDeed::Render,
            VictimDeed::WritePty(forward),
        ],
{
    if reset {
        assert(forward_deeds(reset, forward) =~= seq![
            VictimDeed::Broadcast(HelperMessage::ScrollTo { offset: 0 }),
            VictimDeed::Render,
            VictimDeed::WritePty(forward),
        ]);
    } else {
        assert(forward_deeds(reset, forward) =~= seq![VictimDeed::WritePty(forward)]);
    }
}

/// Wherever the view goes, all helpers are told where, and the local terminal is drawn again.
pub proof fn lemma_helpers_follow_the_view(offset: u16, read_only: bool, best: PtySize)
    ensures
        scroll_deeds(offset) == seq![
            VictimDeed::Broadcast(HelperMessage::ScrollTo { offset }),
            VictimDeed::Render,
        ],
        message_deeds(read_only, VictimMessage::RequestScrollTo { offset }, best) == scroll_deeds(
            offset,
        ),
{
}

/// What a helper types is typed into the shell, all of it and nothing else, unless helpers may only
/// watch.
pub proof fn lemma_helpers_type(bytes: Seq<u8>, best: PtySize)
    ensures
        message_deeds(false, VictimMessage::Data(bytes), best) == seq![
            VictimDeed::WritePty(bytes),
        ],
        message_deeds(true, VictimMessage::Data(bytes), best).len() == 0,
{
}

/// After a change of size, shell and helpers are told, in whatever order, and then the local terminal
/// is drawn again; nothing else is done.
pub proof fn lemma_size_change_is_shown(read_only: bool, message: VictimMessage, best: PtySize)
    requires
        message is SizeHint || message is Bye,
    ensures
        changes_size(message),
        message_deeds(read_only, message, best).len() == 3,
        message_deeds(read_only, message, best).last() == VictimDeed::Render,
        hint_deeds(best).last() == VictimDeed::Render,
        hint_deeds(best).contains(VictimDeed::ResizePty(best)),
        hint_deeds(best).contains(VictimDeed::Broadcast(HelperMessage::SetSize(best))),
        hint_deeds(best).len() == 3,
{
    assert(hint_deeds(best)[0] == VictimDeed::ResizePty(best));
    assert(hint_deeds(best)[1] == VictimDeed::Broadcast(HelperMessage::SetSize(best)));
}

/// The local terminal is drawn whenever the status bar has changed, and the helpers are told nothing
/// but the number of helpers.
pub proof fn lemma_bar_is_drawn_again(told: u8, connected: u8)
    ensures
        ({
            let d = statusbar_deeds(told, connected);
            &&& d.len() == (if told == connected {
                1int
            } else {
                2
            })
            &&& d[0] == VictimDeed::Render
            &&& told != connected ==> d[1] == VictimDeed::Broadcast(
                HelperMessage::ConnectedHelpers(connected),
            )
        }),
{
}

/// A helper that tells its size counts with this size for ten seconds; one that leaves no longer
/// counts; all others count until their time is up. Other messages change nothing of that.
pub proof fn lemma_who_counts_after_a_message(
    helpers: Map<u64, HelperLifetime>,
    message: VictimMessage,
    first: u128,
    now: u128,
    other: u64,
)
    requires
        first <= MAX_NANOS,
        first <= now,
    ensures
        ({
            let after = helpers_after(helpers, message, first, now);
            let known = helpers.contains_key(other);
            match message {
                VictimMessage::SizeHint { id, size } => if other == id.0 {
                    &&& after.contains_key(other) <==> now < first + 10_000_000_000
                    &&& after.contains_key(other) ==> after[other].size == size
                        && after[other].deadline == first + 10_000_000_000
                } else {
                    &&& after.contains_key(other) <==> known && now < helpers[other].deadline
                    &&& after.contains_key(other) ==> after[other] == helpers[other]
                },
                VictimMessage::Bye { id } => {
                    &&& after.contains_key(other) <==> known && other != id.0 && now
                        < helpers[other].deadline
                    &&& after.contains_key(other) ==> after[other] == helpers[other]
                },
                _ => after == helpers,
            }
        }),
{
}

/// A message changes the screen only as it says: a size gives it the shared size, a place in time
/// takes the view there or as far back as lines are kept, and keystrokes change nothing.
pub proof fn lemma_message_changes_the_screen(
    before: Screen,
    after: Screen,
    message: VictimMessage,
    best: PtySize,
)
    requires
        screen_after_message(before, after, message, best),
    ensures
        message is Data ==> after == before,
        message is SizeHint || message is Bye ==> screen_size(after) == (best.rows, best.cols)
            && scroll_offset(after) == scroll_offset(before),
        message matches VictimMessage::RequestScrollTo { offset } ==> screen_size(after)
            == screen_size(before) && scroll_offset(after) <= offset && scroll_offset(after)
            <= history(before) && (scroll_offset(after) == offset || scroll_offset(after) == history(
            before,
        )),
{
}

/// The actions are done in the order of the list, each as it says.
pub proof fn lemma_actions_say_what_is_done(actions: Seq<VictimAction>, i: int)
    requires
        0 <= i < actions.len(),
    ensures
        deeds(actions).len() == actions.len(),
        match actions[i] {
            VictimAction::Render => deeds(actions)[i] == VictimDeed::Render,
            VictimAction::Broadcast(message) => deeds(actions)[i] == VictimDeed::Broadcast(message@),
            VictimAction::WritePty(bytes) => deeds(actions)[i] == VictimDeed::WritePty(
                frozen(bytes),
            ),
            VictimAction::WriteStdout(bytes) => deeds(actions)[i] == VictimDeed::WriteStdout(
                frozen(bytes),
            ),
            VictimAction::ResizePty(size) => deeds(actions)[i] == VictimDeed::ResizePty(size),
            VictimAction::Exit => deeds(actions)[i] == VictimDeed::Exit,
        },
{
}

/// After a message, only the sizes have changed: the helpers that count, and where a helper has left,
/// the local size, which is then asked for again. The shared size is the largest that fits in all that
/// count.
pub proof fn lemma_message_changes_only_sizes(
    before: VictimModel,
    after: VictimModel,
    screen_before: Screen,
    screen_after: Screen,
    message: VictimMessage,
    local_size: PtySize,
    first: u128,
    now: u128,
    best: PtySize,
)
    requires
        is_outcome(
            before,
            after,
            screen_before,
            screen_after,
            message,
            local_size,
            first,
            now,
            best,
        ),
    ensures
        after.stdin == before.stdin,
        after.identity == before.identity,
        after.queries == before.queries,
        after.clipboard == before.clipboard,
        after.connected == before.connected,
        after.read_only == before.read_only,
        after.started == before.started,
        after.local == (if message is Bye {
            local_size
        } else {
            before.local
        }),
        after.helpers == helpers_after(before.helpers, message, first, now),
        message is SizeHint || message is Bye ==> is_best(best, after.local, after.helpers),
        screen_after_message(screen_before, screen_after, message, best),
{
}

/// When a helper tells its size, the shell has the new size before the helpers are told; when one
/// leaves, the helpers are told first.
pub proof fn lemma_who_is_told_first(read_only: bool, message: VictimMessage, best: PtySize)
    ensures
        message is SizeHint ==> message_deeds(read_only, message, best)[0] == VictimDeed::ResizePty(
            best,
        ) && message_deeds(read_only, message, best)[1] == VictimDeed::Broadcast(
            HelperMessage::SetSize(best),
        ),
        message is Bye ==> message_deeds(read_only, message, best)[0] == VictimDeed::Broadcast(
            HelperMessage::SetSize(best),
        ) && message_deeds(read_only, message, best)[1] == VictimDeed::ResizePty(best),
{
}

} // verus!
