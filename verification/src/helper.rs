//! The end of a session that helps: what it does when something happens.
use crate::buffer::{contents, frozen, if_any};
use crate::console::clipboard::{clipboard_actions, Osc52Extractor};
use crate::console::local_console::{scroll_target, scrolled_by, LocalConsole};
use crate::console::negotiator::{deadline_after, live, HelperLifetime};
use crate::console::stdin::{input_step, KeyMode, LocalEvent, StdinModel, StdinProcessor};
use crate::protocol::{
    HelperId, HelperMessage, PtySize, ToHelper, ToVictim, VictimMessage, TIMEOUT,
};
use crate::screen::{history, resized_screen, screen_size, scroll_offset, scrolled_screen};
use crate::session::{
    plan_input, plan_of, refreshed, scroll_view, InputPlan, SessionError,
};
use crate::time::MAX_NANOS;
use crate::victim::{helpers_after, VictimDeed};
use crate::vt::{advanced, fresh_parser, OSC_RAW_BUF_SIZE};
use bytes::Bytes;
use vstd::prelude::*;
use vt100::Screen;

verus! {

/// What the helper does.
pub enum HelperAction {
    /// Draws the local terminal.
    Render,
    /// Tells the victim.
    Send(ToVictim),
    /// Writes to the local terminal.
    WriteStdout(Bytes),
    /// Lets the screen show output of the shell.
    Feed(Bytes),
    /// Lets the status bar show so many helpers.
    SetConnected(u8),
    /// Ends the session, after the farewell of [`Helper::on_exit`].
    Exit,
}

/// The mathematical value of a [`HelperAction`].
pub ghost enum HelperDeed {
    Render,
    Send(VictimMessage),
    WriteStdout(Seq<u8>),
    Feed(Seq<u8>),
    SetConnected(u8),
    Exit,
}

impl View for HelperAction {
    type V = HelperDeed;

    open spec fn view(&self) -> HelperDeed {
        match *self {
            HelperAction::Render => HelperDeed::Render,
            HelperAction::Send(message) => HelperDeed::Send(message@),
            HelperAction::WriteStdout(bytes) => HelperDeed::WriteStdout(frozen(bytes)),
            HelperAction::Feed(bytes) => HelperDeed::Feed(frozen(bytes)),
            HelperAction::SetConnected(n) => HelperDeed::SetConnected(n),
            HelperAction::Exit => HelperDeed::Exit,
        }
    }
}

/// The mathematical values of a list of actions.
pub open spec fn deeds(actions: Seq<HelperAction>) -> Seq<HelperDeed> {
    actions.map_values(|a: HelperAction| a@)
}

/// Everything that what the helper does next depends on.
#[verifier::ext_equal]
pub ghost struct HelperModel {
    pub id: HelperId,
    pub stdin: StdinModel,
    /// Where the reading of clipboard writes in the output stands.
    pub clipboard: vte::Parser,
}

/// The victim is told the size of the local terminal.
pub open spec fn size_deeds(id: HelperId, size: PtySize) -> Seq<HelperDeed> {
    seq![HelperDeed::Send(VictimMessage::SizeHint { id, size })]
}

/// The view has moved: the victim is asked to follow.
pub open spec fn scroll_deeds(offset: u16) -> Seq<HelperDeed> {
    seq![HelperDeed::Send(VictimMessage::RequestScrollTo { offset }), HelperDeed::Render]
}

/// The rest of the keyboard input: the view goes back to now where it has to, and the victim gets the
/// keys.
pub open spec fn forward_deeds(reset: bool, forward: Seq<u8>) -> Seq<HelperDeed> {
    (if reset {
        scroll_deeds(0)
    } else {
        Seq::empty()
    }) + seq![HelperDeed::Send(VictimMessage::Data(forward))]
}

/// What a message of the victim leads to, where `clip` is the clipboard writes in its output.
pub open spec fn message_deeds(message: HelperMessage, clip: Option<Seq<u8>>) -> Seq<HelperDeed> {
    match message {
        HelperMessage::Data(bytes) => (match clip {
            Some(writes) => seq![HelperDeed::WriteStdout(writes)],
            None => Seq::empty(),
        }) + seq![HelperDeed::Feed(bytes), HelperDeed::Render],
        HelperMessage::Bye => seq![HelperDeed::Exit],
        HelperMessage::ConnectedHelpers(n) => seq![HelperDeed::SetConnected(n)],
        HelperMessage::SetSize(size) => seq![HelperDeed::Render],
        HelperMessage::ScrollTo { offset } => seq![HelperDeed::Render],
    }
}

/// The farewell: the victim is told who leaves.
pub open spec fn exit_deeds(id: HelperId) -> Seq<HelperDeed> {
    seq![HelperDeed::Send(VictimMessage::Bye { id })]
}

/// What becomes of the screen when a message is handled.
pub open spec fn screen_after_message(
    before: Screen,
    after: Screen,
    message: HelperMessage,
) -> bool {
    match message {
        HelperMessage::SetSize(size) => {
            &&& after == resized_screen(before, size.rows, size.cols)
            &&& screen_size(after) == (size.rows, size.cols)
            &&& scroll_offset(after) == scroll_offset(before)
        },
        HelperMessage::ScrollTo { offset } => {
            &&& after == scrolled_screen(before, offset as usize)
            &&& screen_size(after) == screen_size(before)
            &&& scroll_offset(after) == (if offset <= history(before) {
                offset as nat
            } else {
                history(before)
            })
        },
        _ => after == before,
    }
}

/// The end of a session that helps.
pub struct Helper {
    id: HelperId,
    stdin: StdinProcessor,
    clipboard: Osc52Extractor,
}

impl Helper {
    /// Everything that what the helper does next depends on.
    pub closed spec fn model(self) -> HelperModel {
        HelperModel {
            id: self.id,
            stdin: self.stdin.model(),
            clipboard: self.clipboard.parser(),
        }
    }

    /// Nothing is left over from earlier input.
    pub closed spec fn wf(self) -> bool {
        self.stdin.wf()
    }

    /// A helper that has just connected.
    pub fn new(id: HelperId, page_rows: u16) -> (r: Self)
        ensures
            r.wf(),
            r.model() == (HelperModel {
                id,
                stdin: StdinModel {
                    mode: KeyMode {
                        row_offset: 1,
                        alt_screen: false,
                        mouse_on: false,
                        app_cursor: false,
                        page_size: page_rows as i32,
                    },
                    parser: fresh_parser(OSC_RAW_BUF_SIZE as nat),
                    saw_escape: false,
                },
                clipboard: fresh_parser(OSC_RAW_BUF_SIZE as nat),
            }),
    {
        Helper {
            id,
            stdin: StdinProcessor::new(page_rows as i32),
            clipboard: Osc52Extractor::default(),
        }
    }

    /// Seconds after which the victim is told again how large the local terminal is.
    pub fn resend_secs() -> (r: u64)
        ensures
            r == TIMEOUT / 2,
    {
        TIMEOUT / 2
    }

    /// The session has begun, the local terminal has another size, or it is time to tell it again.
    pub fn on_size(&self, size: PtySize) -> (r: Vec<HelperAction>)
        ensures
            deeds(r@) == size_deeds(self.model().id, size),
    {
        let r: Vec<HelperAction> = vec![
            HelperAction::Send(ToVictim::SizeHint { id: self.id, size }),
        ];
        assert(deeds(r@) =~= size_deeds(self.model().id, size));
        r
    }

    /// The user has typed something.
    pub fn on_stdin(&mut self, input: &[u8], screen: &Screen, page_rows: u16) -> (r: InputPlan)
        requires
            old(self).wf(),
        ensures
            final(self).wf(),
            ({
                let (stdin, outcome) = input_step(
                    refreshed(old(self).model().stdin, *screen, page_rows),
                    input@,
                );
                &&& final(self).model() == (HelperModel { stdin, ..old(self).model() })
                &&& r@ == plan_of(*screen, outcome)
            }),
    {
        plan_input(&mut self.stdin, screen, page_rows, input)
    }

    /// An event of the keyboard input: the user leaves, or moves the view.
    pub fn on_local_event(event: LocalEvent, screen: &mut Screen) -> (r: Result<
        Vec<HelperAction>,
        SessionError,
    >)
        ensures
            match event {
                LocalEvent::Detach => {
                    &&& *final(screen) == *old(screen)
                    &&& r matches Ok(actions) && deeds(actions@) == seq![HelperDeed::Exit]
                },
                LocalEvent::Scroll(delta) => {
                    let offset = scrolled_by(
                        scroll_offset(*old(screen)),
                        delta as isize,
                        history(*old(screen)),
                    );
                    &&& *final(screen) == scrolled_screen(
                        *old(screen),
                        scroll_target(scroll_offset(*old(screen)), delta as isize),
                    )
                    &&& scroll_offset(*final(screen)) == offset
                    &&& screen_size(*final(screen)) == screen_size(*old(screen))
                    &&& if offset <= u16::MAX {
                        r matches Ok(actions) && deeds(actions@) == scroll_deeds(offset as u16)
                    } else {
                        r == Err::<Vec<HelperAction>, SessionError>(SessionError::OffsetTooLarge)
                    }
                },
            },
    {
        match event {
            LocalEvent::Detach => {
                let actions: Vec<HelperAction> = vec![HelperAction::Exit];
                assert(deeds(actions@) =~= seq![HelperDeed::Exit]);
                Ok(actions)
            },
            LocalEvent::Scroll(delta) => match scroll_view(screen, delta) {
                Ok(offset) => Ok(scroll_actions(offset)),
                Err(e) => Err(e),
            },
        }
    }

    /// The rest of the keyboard input, once its events have been handled.
    pub fn on_forward(reset: bool, forward: Bytes, screen: &mut Screen) -> (r: Vec<HelperAction>)
        ensures
            deeds(r@) == forward_deeds(reset, frozen(forward)),
            *final(screen) == (if reset {
                scrolled_screen(*old(screen), 0)
            } else {
                *old(screen)
            }),
            screen_size(*final(screen)) == screen_size(*old(screen)),
            scroll_offset(*final(screen)) == (if reset {
                0
            } else {
                scroll_offset(*old(screen))
            }),
    {
        let ghost sent = frozen(forward);
        let mut actions: Vec<HelperAction> = Vec::new();
        if reset {
            screen.set_scrollback(0);
            actions = scroll_actions(0);
        }
        let ghost before = actions@;
        actions.push(HelperAction::Send(ToVictim::Data(forward)));
        proof {
            assert(deeds(actions@) =~= deeds(before) + seq![
                HelperDeed::Send(VictimMessage::Data(sent)),
            ]);
            if !reset {
                assert(deeds(before) =~= Seq::<HelperDeed>::empty());
            }
        }
        actions
    }

    /// The victim has sent a message.
    pub fn on_message(&mut self, message: ToHelper, screen: &mut Screen) -> (r: Vec<HelperAction>)
        requires
            old(self).wf(),
            message@ matches HelperMessage::SetSize(size) ==> size.visible() && screen_size(
                *old(screen),
            ).0 >= 1,
        ensures
            final(self).wf(),
            final(self).model() == (HelperModel {
                clipboard: match message@ {
                    HelperMessage::Data(bytes) => advanced(old(self).model().clipboard, bytes).1,
                    _ => old(self).model().clipboard,
                },
                ..old(self).model()
            }),
            deeds(r@) == message_deeds(
                message@,
                match message@ {
                    HelperMessage::Data(bytes) => if_any(
                        clipboard_actions(advanced(old(self).model().clipboard, bytes).0),
                    ),
                    _ => None,
                },
            ),
            screen_after_message(*old(screen), *final(screen), message@),
    {
        let ghost said = message@;
        match message {
            ToHelper::Data(bytes) => {
                let clip: Option<Bytes> = self.clipboard.extract(&bytes);
                data_actions(clip, bytes)
            },
            ToHelper::Bye => {
                let actions: Vec<HelperAction> = vec![HelperAction::Exit];
                assert(deeds(actions@) =~= message_deeds(said, None));
                actions
            },
            ToHelper::ConnectedHelpers(n) => {
                let actions: Vec<HelperAction> = vec![HelperAction::SetConnected(n)];
                assert(deeds(actions@) =~= message_deeds(said, None));
                actions
            },
            ToHelper::SetSize(size) => {
                LocalConsole::resize_parser(screen, size);
                let actions: Vec<HelperAction> = vec![HelperAction::Render];
                assert(deeds(actions@) =~= message_deeds(said, None));
                actions
            },
            ToHelper::ScrollTo { offset } => {
                screen.set_scrollback(offset as usize);
                let actions: Vec<HelperAction> = vec![HelperAction::Render];
                assert(deeds(actions@) =~= message_deeds(said, None));
                actions
            },
        }
    }

    /// The session ends.
    pub fn on_exit(&self) -> (r: Vec<HelperAction>)
        ensures
            deeds(r@) == exit_deeds(self.model().id),
    {
        let r: Vec<HelperAction> = vec![HelperAction::Send(ToVictim::Bye { id: self.id })];
        assert(deeds(r@) =~= exit_deeds(self.model().id));
        r
    }
}

fn scroll_actions(offset: u16) -> (r: Vec<HelperAction>)
    ensures
        deeds(r@) == scroll_deeds(offset),
{
    let r: Vec<HelperAction> = vec![
        HelperAction::Send(ToVictim::RequestScrollTo { offset }),
        HelperAction::Render,
    ];
    assert(deeds(r@) =~= scroll_deeds(offset));
    r
}

/// What output of the shell leads to, where `clip` is the clipboard writes in it.
pub fn data_actions(clip: Option<Bytes>, output: Bytes) -> (r: Vec<HelperAction>)
    ensures
        deeds(r@) == message_deeds(HelperMessage::Data(frozen(output)), contents(clip)),
{
    let ghost copied = contents(clip);
    let ghost shown = frozen(output);
    let mut actions: Vec<HelperAction> = Vec::new();
    if let Some(bytes) = clip {
        actions.push(HelperAction::WriteStdout(bytes));
    }
    actions.push(HelperAction::Feed(output));
    actions.push(HelperAction::Render);
    assert(deeds(actions@) =~= message_deeds(HelperMessage::Data(shown), copied));
    actions
}

/// A helper that tells its size again in time counts without a gap: it is told again before what was
/// told last no longer counts.
pub proof fn lemma_helper_stays_known(
    helpers: Map<u64, HelperLifetime>,
    id: u64,
    size: PtySize,
    heard: u128,
    now: u128,
)
    requires
        heard <= MAX_NANOS,
        now <= heard + (TIMEOUT / 2) * 1_000_000_000,
    ensures
        live(
            helpers.insert(id, HelperLifetime { size, deadline: deadline_after(heard) }),
            now,
        ).contains_key(id),
{
}

/// A helper that takes its leave is forgotten by the victim at once: its farewell names it as its size
/// hints do, and from then on its terminal no longer counts. All others count as before.
pub proof fn lemma_farewell_is_heard(
    id: HelperId,
    size: PtySize,
    helpers: Map<u64, HelperLifetime>,
    first: u128,
    now: u128,
)
    ensures
        size_deeds(id, size) == seq![HelperDeed::Send(VictimMessage::SizeHint { id, size })],
        exit_deeds(id) == seq![HelperDeed::Send(VictimMessage::Bye { id })],
        !helpers_after(helpers, VictimMessage::Bye { id }, first, now).contains_key(id.0),
        forall|other: u64|
            other != id.0 && first <= now ==> (#[trigger] helpers_after(
                helpers,
                VictimMessage::Bye { id },
                first,
                now,
            ).contains_key(other) <==> live(helpers, now).contains_key(other)),
{
}

/// When the victim takes its leave, each helper ends its session too, and does nothing else.
pub proof fn lemma_victim_farewell_ends_session(clip: Option<Seq<u8>>)
    ensures
        crate::victim::exit_deeds() == seq![VictimDeed::Broadcast(HelperMessage::Bye)],
        message_deeds(HelperMessage::Bye, clip) == seq![HelperDeed::Exit],
{
}

/// When a helper has moved its view, the victim follows and tells all helpers, so that they all show
/// the screen of the same moment, as far as they have kept it.
pub proof fn lemma_views_converge(
    victim_before: Screen,
    victim_after: Screen,
    helper_before: Screen,
    helper_after: Screen,
    read_only: bool,
    offset: u16,
    best: PtySize,
)
    requires
        crate::victim::screen_after_message(
            victim_before,
            victim_after,
            VictimMessage::RequestScrollTo { offset },
            best,
        ),
        screen_after_message(helper_before, helper_after, HelperMessage::ScrollTo { offset }),
        history(victim_before) == history(helper_before),
    ensures
        crate::victim::message_deeds(
            read_only,
            VictimMessage::RequestScrollTo { offset },
            best,
        ).contains(VictimDeed::Broadcast(HelperMessage::ScrollTo { offset })),
        scroll_offset(victim_after) == scroll_offset(helper_after),
{
    let told = crate::victim::message_deeds(
        read_only,
        VictimMessage::RequestScrollTo { offset },
        best,
    );
    assert(told[0] == VictimDeed::Broadcast(HelperMessage::ScrollTo { offset }));
}

/// After a change of size, the screen of each helper has the size of the victim's.
pub proof fn lemma_sizes_agree(
    victim_before: Screen,
    victim_after: Screen,
    helper_before: Screen,
    helper_after: Screen,
    message: VictimMessage,
    best: PtySize,
)
    requires
        crate::victim::changes_size(message),
        crate::victim::screen_after_message(victim_before, victim_after, message, best),
        screen_after_message(helper_before, helper_after, HelperMessage::SetSize(best)),
    ensures
        screen_size(victim_after) == screen_size(helper_after),
{
}

/// What a helper types is what the shell gets: all of it is sent, and the victim types all of it,
/// unless helpers may only watch.
pub proof fn lemma_keys_reach_the_shell(reset: bool, forward: Seq<u8>, best: PtySize)
    ensures
        !reset ==> forward_deeds(reset, forward) == seq![
            HelperDeed::Send(VictimMessage::Data(forward)),
        ],
        reset ==> forward_deeds(reset, forward) == seq![
            HelperDeed::Send(VictimMessage::RequestScrollTo { offset: 0 }),
            HelperDeed::Render,
            HelperDeed::Send(VictimMessage::Data(forward)),
        ],
        crate::victim::message_deeds(false, VictimMessage::Data(forward), best) == seq![
            VictimDeed::WritePty(forward),
        ],
{
    if reset {
        assert(forward_deeds(reset, forward) =~= seq![
            HelperDeed::Send(VictimMessage::RequestScrollTo { offset: 0 }),
            HelperDeed::Render,
            HelperDeed::Send(VictimMessage::Data(forward)),
        ]);
    } else {
        assert(forward_deeds(reset, forward) =~= seq![
            HelperDeed::Send(VictimMessage::Data(forward)),
        ]);
    }
}

/// What the shell writes is what a helper sees: all of it is told, and all of it is shown, after the
/// clipboard writes in it have gone to the local terminal and before this is drawn again.
pub proof fn lemma_output_is_shown(
    reply: Option<Seq<u8>>,
    victim_clip: Option<Seq<u8>>,
    clip: Option<Seq<u8>>,
    chunk: Seq<u8>,
)
    ensures
        crate::victim::output_deeds(reply, victim_clip, chunk).contains(
            VictimDeed::Broadcast(HelperMessage::Data(chunk)),
        ),
        clip is None ==> message_deeds(HelperMessage::Data(chunk), clip) == seq![
            HelperDeed::Feed(chunk),
            HelperDeed::Render,
        ],
        clip matches Some(writes) ==> message_deeds(HelperMessage::Data(chunk), clip) == seq![
            HelperDeed::WriteStdout(writes),
            HelperDeed::Feed(chunk),
            HelperDeed::Render,
        ],
{
    let told = crate::victim::output_deeds(reply, victim_clip, chunk);
    assert(told[told.len() - 2] == VictimDeed::Broadcast(HelperMessage::Data(chunk)));
    match clip {
        Some(writes) => {
            assert(message_deeds(HelperMessage::Data(chunk), clip) =~= seq![
                HelperDeed::WriteStdout(writes),
                HelperDeed::Feed(chunk),
                HelperDeed::Render,
            ]);
        },
        None => {
            assert(message_deeds(HelperMessage::Data(chunk), clip) =~= seq![
                HelperDeed::Feed(chunk),
                HelperDeed::Render,
            ]);
        },
    }
}

/// The number of helpers that the victim tells is the one that the status bar of a helper shows.
pub proof fn lemma_helpers_show_the_number(told: u8, connected: u8, clip: Option<Seq<u8>>)
    requires
        told != connected,
    ensures
        crate::victim::statusbar_deeds(told, connected).contains(
            VictimDeed::Broadcast(HelperMessage::ConnectedHelpers(connected)),
        ),
        message_deeds(HelperMessage::ConnectedHelpers(connected), clip) == seq![
            HelperDeed::SetConnected(connected),
        ],
{
    assert(crate::victim::statusbar_deeds(told, connected)[1] == VictimDeed::Broadcast(
        HelperMessage::ConnectedHelpers(connected),
    ));
}

/// Wherever a helper moves its view, the victim is asked to follow; and when size or view change, the
/// local terminal is drawn again.
pub proof fn lemma_changes_are_drawn(offset: u16, size: PtySize, clip: Option<Seq<u8>>)
    ensures
        scroll_deeds(offset) == seq![
            HelperDeed::Send(VictimMessage::RequestScrollTo { offset }),
            HelperDeed::Render,
        ],
        message_deeds(HelperMessage::ScrollTo { offset }, clip) == seq![HelperDeed::Render],
        message_deeds(HelperMessage::SetSize(size), clip) == seq![HelperDeed::Render],
{
}

/// A message changes the screen only as it says: a size gives it this size, a place in time takes the
/// view there or as far back as lines are kept, and the rest changes nothing.
pub proof fn lemma_message_changes_the_screen(before: Screen, after: Screen, message: HelperMessage)
    requires
        screen_after_message(before, after, message),
    ensures
        message is Data || message is Bye || message is ConnectedHelpers ==> after == before,
        message matches HelperMessage::SetSize(size) ==> screen_size(after) == (
            size.rows,
            size.cols,
        ) && scroll_offset(after) == scroll_offset(before),
        message matches HelperMessage::ScrollTo { offset } ==> screen_size(after) == screen_size(
            before,
        ) && scroll_offset(after) <= offset && scroll_offset(after) <= history(before) && (
        scroll_offset(after) == offset || scroll_offset(after) == history(before)),
{
}

/// The actions are done in the order of the list, each as it says.
pub proof fn lemma_actions_say_what_is_done(actions: Seq<HelperAction>, i: int)
    requires
        0 <= i < actions.len(),
    ensures
        deeds(actions).len() == actions.len(),
        match actions[i] {
            HelperAction::Render => deeds(actions)[i] == HelperDeed::Render,
            HelperAction::Send(message) => deeds(actions)[i] == HelperDeed::Send(message@),
            HelperAction::WriteStdout(bytes) => deeds(actions)[i] == HelperDeed::WriteStdout(
                frozen(bytes),
            ),
            HelperAction::Feed(bytes) => deeds(actions)[i] == HelperDeed::Feed(frozen(bytes)),
            HelperAction::SetConnected(n) => deeds(actions)[i] == HelperDeed::SetConnected(n),
            HelperAction::Exit => deeds(actions)[i] == HelperDeed::Exit,
        },
{
}

} // verus!
