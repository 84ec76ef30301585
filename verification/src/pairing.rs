//! How a victim lets helpers find it: codes are shown, keys are exchanged, and everything starts
//! again once a helper has left or something has failed.
use crate::access::{may_join, Key};
use crate::io::{is_public_key, public_key_of};
use vstd::prelude::*;

verus! {

/// Seconds that a helper has to connect once keys have been exchanged.
pub const CONNECT_SECS: u64 = 60;

/// Seconds between a failure and the next try.
pub const REST_SECS: u64 = 1;

/// How many words a code has if the user does not say.
pub const CODE_WORDS: usize = 2;

/// Where the pairing stands.
#[derive(Debug, Clone, Copy, PartialEq, Eq, Structural)]
pub enum PairingState {
    /// A mailbox is being opened.
    Opening,
    /// A helper is awaited at the mailbox, and keys are exchanged with it.
    Exchanging,
    /// A helper whose key is known is awaited.
    Waiting,
    /// A helper is connected.
    Serving,
    /// Something has failed a moment ago.
    Resting,
}

/// What is to be done next.
pub enum PairingAction {
    /// Opens the mailbox with the code that the user has given.
    JoinMailbox(String),
    /// Opens a mailbox with a new code of so many words.
    CreateMailbox(usize),
    /// Lets the status bar show the code.
    ShowCode(String),
    /// Lets the status bar show that there is no code.
    HideCode,
    /// Exchanges keys at the mailbox.
    Exchange,
    /// Waits for a helper to connect, but not longer than so many seconds.
    AwaitConnected(u64),
    /// Waits for all helpers to leave.
    AwaitDisconnected,
    /// Waits so many seconds.
    Rest(u64),
}

/// The mathematical value of a [`PairingAction`].
pub ghost enum PairingDeed {
    JoinMailbox(Seq<char>),
    CreateMailbox(usize),
    ShowCode(Seq<char>),
    HideCode,
    Exchange,
    AwaitConnected(u64),
    AwaitDisconnected,
    Rest(u64),
}

impl View for PairingAction {
    type V = PairingDeed;

    open spec fn view(&self) -> PairingDeed {
        match *self {
            PairingAction::JoinMailbox(code) => PairingDeed::JoinMailbox(code@),
            PairingAction::CreateMailbox(words) => PairingDeed::CreateMailbox(words),
            PairingAction::ShowCode(code) => PairingDeed::ShowCode(code@),
            PairingAction::HideCode => PairingDeed::HideCode,
            PairingAction::Exchange => PairingDeed::Exchange,
            PairingAction::AwaitConnected(secs) => PairingDeed::AwaitConnected(secs),
            PairingAction::AwaitDisconnected => PairingDeed::AwaitDisconnected,
            PairingAction::Rest(secs) => PairingDeed::Rest(secs),
        }
    }
}

/// The mathematical values of a list of actions.
pub open spec fn deeds(actions: Seq<PairingAction>) -> Seq<PairingDeed> {
    actions.map_values(|a: PairingAction| a@)
}

/// Everything that what is done next depends on.
#[verifier::ext_equal]
pub ghost struct PairingModel {
    /// The code that the user has given.
    pub code: Option<Seq<char>>,
    /// How many words a new code has.
    pub words: Option<usize>,
    /// Whether several helpers may be connected at once.
    pub multiple: bool,
    pub state: PairingState,
    /// The helper that has shown that it knows the code.
    pub peer: Option<Seq<u8>>,
}

impl PairingModel {
    /// Where only one helper may be connected, its key is known from the exchange until it has left.
    pub open spec fn wf(self) -> bool {
        !self.multiple ==> (self.peer is Some <==> (self.state == PairingState::Waiting
            || self.state == PairingState::Serving))
    }

    /// The mailbox that is opened.
    pub open spec fn open_deed(self) -> PairingDeed {
        match self.code {
            Some(code) => PairingDeed::JoinMailbox(code),
            None => PairingDeed::CreateMailbox(
                match self.words {
                    Some(words) => words,
                    None => CODE_WORDS,
                },
            ),
        }
    }
}

/// The mailbox is open.
pub open spec fn opened(m: PairingModel, code: Seq<char>) -> (PairingModel, Seq<PairingDeed>) {
    if m.state == PairingState::Opening {
        (
            PairingModel { state: PairingState::Exchanging, ..m },
            seq![PairingDeed::ShowCode(code), PairingDeed::Exchange],
        )
    } else {
        (m, Seq::empty())
    }
}

/// Something has failed. Where a helper is served, that means that it has left.
pub open spec fn failed(m: PairingModel) -> (PairingModel, Seq<PairingDeed>) {
    if m.state == PairingState::Resting {
        (m, Seq::empty())
    } else if m.state == PairingState::Serving {
        disconnected(m)
    } else {
        (
            PairingModel { state: PairingState::Resting, peer: None, ..m },
            seq![PairingDeed::HideCode, PairingDeed::Rest(REST_SECS)],
        )
    }
}

/// The helper has sent its key, or something that is no key.
pub open spec fn received(m: PairingModel, key: Option<Seq<u8>>) -> (
    PairingModel,
    Seq<PairingDeed>,
) {
    if m.state != PairingState::Exchanging {
        (m, Seq::empty())
    } else if key is None {
        failed(m)
    } else if m.multiple {
        (PairingModel { state: PairingState::Opening, peer: key, ..m }, seq![m.open_deed()])
    } else {
        (
            PairingModel { state: PairingState::Waiting, peer: key, ..m },
            seq![PairingDeed::AwaitConnected(CONNECT_SECS)],
        )
    }
}

/// A helper has connected.
pub open spec fn connected(m: PairingModel) -> (PairingModel, Seq<PairingDeed>) {
    if m.state == PairingState::Waiting {
        (
            PairingModel { state: PairingState::Serving, ..m },
            seq![PairingDeed::HideCode, PairingDeed::AwaitDisconnected],
        )
    } else {
        (m, Seq::empty())
    }
}

/// All helpers have left.
pub open spec fn disconnected(m: PairingModel) -> (PairingModel, Seq<PairingDeed>) {
    if m.state == PairingState::Serving {
        (PairingModel { state: PairingState::Opening, peer: None, ..m }, seq![m.open_deed()])
    } else {
        (m, Seq::empty())
    }
}

/// The pause after a failure is over.
pub open spec fn rested(m: PairingModel) -> (PairingModel, Seq<PairingDeed>) {
    if m.state == PairingState::Resting {
        (PairingModel { state: PairingState::Opening, ..m }, seq![m.open_deed()])
    } else {
        (m, Seq::empty())
    }
}

/// Lets helpers find the victim.
pub struct Pairing {
    code: Option<String>,
    words: Option<usize>,
    multiple_helpers: bool,
    state: PairingState,
    peer: Option<Key>,
}

impl Pairing {
    /// Everything that what is done next depends on.
    pub closed spec fn model(self) -> PairingModel {
        PairingModel {
            code: match self.code {
                Some(code) => Some(code@),
                None => None,
            },
            words: self.words,
            multiple: self.multiple_helpers,
            state: self.state,
            peer: match self.peer {
                Some(key) => Some(key@),
                None => None,
            },
        }
    }

    /// A pairing that has just begun, and what is to be done first.
    pub fn new(code: Option<String>, words: Option<usize>, multiple_helpers: bool) -> (r: (
        Self,
        Vec<PairingAction>,
    ))
        ensures
            r.0.model().wf(),
            r.0.model() == (PairingModel {
                code: match code {
                    Some(code) => Some(code@),
                    None => None,
                },
                words,
                multiple: multiple_helpers,
                state: PairingState::Opening,
                peer: None,
            }),
            deeds(r.1@) == seq![r.0.model().open_deed()],
    {
        let r: Pairing = Pairing {
            code,
            words,
            multiple_helpers,
            state: PairingState::Opening,
            peer: None,
        };
        let actions: Vec<PairingAction> = r.open();
        (r, actions)
    }

    /// The helper that has shown that it knows the code.
    pub fn authenticated_peer(&self) -> (r: Option<Key>)
        ensures
            match self.model().peer {
                Some(key) => r matches Some(k) && k@ == key,
                None => r is None,
            },
    {
        self.peer
    }

    fn open(&self) -> (r: Vec<PairingAction>)
        ensures
            deeds(r@) == seq![self.model().open_deed()],
    {
        let action: PairingAction = match &self.code {
            Some(code) => PairingAction::JoinMailbox(code.clone()),
            None => PairingAction::CreateMailbox(
                match self.words {
                    Some(words) => words,
                    None => CODE_WORDS,
                },
            ),
        };
        let r: Vec<PairingAction> = vec![action];
        assert(deeds(r@) =~= seq![self.model().open_deed()]);
        r
    }

    /// The mailbox is open, with the given code.
    pub fn on_opened(&mut self, code: String) -> (r: Vec<PairingAction>)
        requires
            old(self).model().wf(),
        ensures
            final(self).model().wf(),
            final(self).model() == opened(old(self).model(), code@).0,
            deeds(r@) == opened(old(self).model(), code@).1,
    {
        let ghost m = self.model();
        let ghost shown = code@;
        let mut actions: Vec<PairingAction> = Vec::new();
        match self.state {
            PairingState::Opening => {
                self.state = PairingState::Exchanging;
                actions.push(PairingAction::ShowCode(code));
                actions.push(PairingAction::Exchange);
            },
            _ => {},
        }
        assert(deeds(actions@) =~= opened(m, shown).1);
        actions
    }

    /// The helper has sent what should be its key.
    pub fn on_received(&mut self, bytes: &[u8]) -> (r: Vec<PairingAction>)
        requires
            old(self).model().wf(),
        ensures
            final(self).model().wf(),
            ({
                let key = if is_public_key(bytes@) {
                    Some(bytes@)
                } else {
                    None
                };
                &&& final(self).model() == received(old(self).model(), key).0
                &&& deeds(r@) == received(old(self).model(), key).1
            }),
    {
        let key: Option<Key> = public_key_of(bytes);
        self.on_key(key)
    }

    /// The helper has sent its key, or something that is no key.
    pub fn on_key(&mut self, key: Option<Key>) -> (r: Vec<PairingAction>)
        requires
            old(self).model().wf(),
        ensures
            final(self).model().wf(),
            ({
                let sent = match key {
                    Some(k) => Some(k@),
                    None => None,
                };
                &&& final(self).model() == received(old(self).model(), sent).0
                &&& deeds(r@) == received(old(self).model(), sent).1
            }),
    {
        match self.state {
            PairingState::Exchanging => {},
            _ => {
                let actions: Vec<PairingAction> = Vec::new();
                assert(deeds(actions@) =~= Seq::<PairingDeed>::empty());
                return actions;
            },
        }
        if key.is_none() {
            return self.on_failed();
        }
        self.peer = key;
        if self.multiple_helpers {
            self.state = PairingState::Opening;
            return self.open();
        }
        self.state = PairingState::Waiting;
        let actions: Vec<PairingAction> = vec![PairingAction::AwaitConnected(CONNECT_SECS)];
        assert(deeds(actions@) =~= seq![PairingDeed::AwaitConnected(CONNECT_SECS)]);
        actions
    }

    /// A helper has connected.
    pub fn on_connected(&mut self) -> (r: Vec<PairingAction>)
        requires
            old(self).model().wf(),
        ensures
            final(self).model().wf(),
            final(self).model() == connected(old(self).model()).0,
            deeds(r@) == connected(old(self).model()).1,
    {
        let ghost m = self.model();
        let mut actions: Vec<PairingAction> = Vec::new();
        match self.state {
            PairingState::Waiting => {
                self.state = PairingState::Serving;
                actions.push(PairingAction::HideCode);
                actions.push(PairingAction::AwaitDisconnected);
            },
            _ => {},
        }
        assert(deeds(actions@) =~= connected(m).1);
        actions
    }

    /// All helpers have left.
    pub fn on_disconnected(&mut self) -> (r: Vec<PairingAction>)
        requires
            old(self).model().wf(),
        ensures
            final(self).model().wf(),
            final(self).model() == disconnected(old(self).model()).0,
            deeds(r@) == disconnected(old(self).model()).1,
    {
        match self.state {
            PairingState::Serving => {
                self.state = PairingState::Opening;
                self.peer = None;
                self.open()
            },
            _ => {
                let actions: Vec<PairingAction> = Vec::new();
                assert(deeds(actions@) =~= Seq::<PairingDeed>::empty());
                actions
            },
        }
    }

    /// The pause after a failure is over.
    pub fn on_rested(&mut self) -> (r: Vec<PairingAction>)
        requires
            old(self).model().wf(),
        ensures
            final(self).model().wf(),
            final(self).model() == rested(old(self).model()).0,
            deeds(r@) == rested(old(self).model()).1,
    {
        match self.state {
            PairingState::Resting => {
                self.state = PairingState::Opening;
                self.open()
            },
            _ => {
                let actions: Vec<PairingAction> = Vec::new();
                assert(deeds(actions@) =~= Seq::<PairingDeed>::empty());
                actions
            },
        }
    }

    /// What was to be done has failed, or has taken too long.
    pub fn on_failed(&mut self) -> (r: Vec<PairingAction>)
        requires
            old(self).model().wf(),
        ensures
            final(self).model().wf(),
            final(self).model() == failed(old(self).model()).0,
            deeds(r@) == failed(old(self).model()).1,
    {
        match self.state {
            PairingState::Resting => {
                let actions: Vec<PairingAction> = Vec::new();
                assert(deeds(actions@) =~= Seq::<PairingDeed>::empty());
                actions
            },
            PairingState::Serving => self.on_disconnected(),
            _ => {
                self.state = PairingState::Resting;
                self.peer = None;
                let actions: Vec<PairingAction> = vec![
                    PairingAction::HideCode,
                    PairingAction::Rest(REST_SECS),
                ];
                assert(deeds(actions@) =~= seq![
                    PairingDeed::HideCode,
                    PairingDeed::Rest(REST_SECS),
                ]);
                actions
            },
        }
    }
}

/// After a failure nobody is let in any more, until a helper has shown again that it knows a code.
pub proof fn lemma_failure_shuts_the_door(m: PairingModel)
    requires
        m.state != PairingState::Resting,
    ensures
        failed(m).0.peer is None,
{
}

/// Once a helper has left, its key no longer lets it in.
pub proof fn lemma_leaving_shuts_the_door(m: PairingModel)
    requires
        m.state == PairingState::Serving,
    ensures
        disconnected(m).0.peer is None,
        disconnected(m).0.state == PairingState::Opening,
{
}

/// Where only one helper may be connected and there is no list of keys, nobody is let in but while
/// that helper is awaited or served.
pub proof fn lemma_door_is_open_for_one(m: PairingModel, authenticated: Option<Key>, remote: Key)
    requires
        m.wf(),
        !m.multiple,
        m.peer == (match authenticated {
            Some(key) => Some(key@),
            None => None,
        }),
        may_join(None, authenticated, remote),
    ensures
        m.state == PairingState::Waiting || m.state == PairingState::Serving,
        m.peer == Some(remote@),
{
}

/// While something is awaited, a failure never ends the pairing: a mailbox is opened again, at the
/// latest after a pause.
pub proof fn lemma_pairing_goes_on(m: PairingModel)
    requires
        m.state != PairingState::Resting,
    ensures
        ({
            let (after, todo) = failed(m);
            ||| todo == seq![m.open_deed()]
            ||| todo.last() == PairingDeed::Rest(REST_SECS) && rested(after).1 == seq![
                m.open_deed(),
            ]
        }),
{
}

/// Whether actions open no other mailbox than the given one.
pub open spec fn opens_only(todo: Seq<PairingDeed>, mailbox: PairingDeed) -> bool {
    forall|i: int|
        0 <= i < todo.len() && ((#[trigger] todo[i]) is JoinMailbox || todo[i] is CreateMailbox)
            ==> todo[i] == mailbox
}

/// Whether no step of a pairing, whatever has happened, opens another mailbox than the given one,
/// and each step that begins to open one opens it.
pub open spec fn always_opens(m: PairingModel, mailbox: PairingDeed) -> bool {
    &&& forall|code: Seq<char>| opens_only(#[trigger] opened(m, code).1, mailbox)
    &&& forall|key: Option<Seq<u8>>|
        #![trigger received(m, key)]
        opens_only(received(m, key).1, mailbox) && (m.state == PairingState::Exchanging && received(
            m,
            key,
        ).0.state == PairingState::Opening ==> received(m, key).1 == seq![mailbox])
    &&& opens_only(failed(m).1, mailbox)
    &&& opens_only(connected(m).1, mailbox)
    &&& opens_only(disconnected(m).1, mailbox)
    &&& opens_only(rested(m).1, mailbox)
    &&& m.state == PairingState::Serving ==> disconnected(m).1 == seq![mailbox] && failed(m).1
        == seq![mailbox]
    &&& m.state == PairingState::Resting ==> rested(m).1 == seq![mailbox]
}

/// Where the user has given a code, each mailbox that is opened is the one of this code, whatever the
/// user has said of words: the first one, and every one after.
pub proof fn lemma_given_code_is_used(m: PairingModel, code: Seq<char>)
    requires
        m.code == Some(code),
    ensures
        m.open_deed() == PairingDeed::JoinMailbox(code),
        always_opens(m, PairingDeed::JoinMailbox(code)),
{
}

/// Where the user has given no code, each mailbox that is opened is a new one, whose code has as many
/// words as the user wants, and two if the user does not say.
pub proof fn lemma_new_code_has_the_wanted_words(m: PairingModel)
    requires
        m.code is None,
    ensures
        m.words matches Some(words) ==> m.open_deed() == PairingDeed::CreateMailbox(words)
            && always_opens(m, PairingDeed::CreateMailbox(words)),
        m.words is None ==> m.open_deed() == PairingDeed::CreateMailbox(2) && always_opens(
            m,
            PairingDeed::CreateMailbox(2),
        ),
{
}

/// Nothing that happens changes what the user has asked for.
pub proof fn lemma_wishes_stay(m: PairingModel, code: Seq<char>, key: Option<Seq<u8>>)
    ensures
        forall|after: PairingModel|
            #![trigger after.state]
            after == opened(m, code).0 || after == failed(m).0 || after == received(m, key).0
                || after == connected(m).0 || after == disconnected(m).0 || after == rested(m).0
                ==> after.code == m.code && after.words == m.words && after.multiple == m.multiple,
{
}

/// A session with one helper, from the mailbox to the end: the code is shown and keys are exchanged,
/// the helper has a minute to connect, the code is hidden while it is there, and once it has left
/// everything is as it was. Only from the exchange on, and only until the end, its key is known.
pub proof fn lemma_one_helper_comes_and_goes(m: PairingModel, code: Seq<char>, key: Seq<u8>)
    requires
        m.state == PairingState::Opening,
        m.peer is None,
        !m.multiple,
    ensures
        ({
            let (m1, todo1) = opened(m, code);
            let (m2, todo2) = received(m1, Some(key));
            let (m3, todo3) = connected(m2);
            let (m4, todo4) = disconnected(m3);
            &&& todo1 == seq![PairingDeed::ShowCode(code), PairingDeed::Exchange]
            &&& todo2 == seq![PairingDeed::AwaitConnected(60)]
            &&& todo3 == seq![PairingDeed::HideCode, PairingDeed::AwaitDisconnected]
            &&& todo4 == seq![m.open_deed()]
            &&& m1.peer is None
            &&& m2.peer == Some(key)
            &&& m3.peer == Some(key)
            &&& m4 == m
        }),
{
}

/// Where several helpers may be connected, the next mailbox is opened as soon as keys have been
/// exchanged, and the helper that has just come is the one that is known.
pub proof fn lemma_helpers_come_one_after_another(m: PairingModel, code: Seq<char>, key: Seq<u8>)
    requires
        m.state == PairingState::Opening,
        m.multiple,
    ensures
        ({
            let (m1, todo1) = opened(m, code);
            let (m2, todo2) = received(m1, Some(key));
            &&& todo1 == seq![PairingDeed::ShowCode(code), PairingDeed::Exchange]
            &&& todo2 == seq![m.open_deed()]
            &&& m1.peer == m.peer
            &&& m2 == (PairingModel { peer: Some(key), ..m })
        }),
{
}

/// When something fails before a helper is there, the code is hidden, and after a second everything
/// begins again. What should be a key and is none is such a failure.
pub proof fn lemma_failure_begins_again(m: PairingModel)
    requires
        m.state == PairingState::Opening || m.state == PairingState::Exchanging || m.state
            == PairingState::Waiting,
    ensures
        ({
            let (m1, todo1) = failed(m);
            let (m2, todo2) = rested(m1);
            &&& todo1 == seq![PairingDeed::HideCode, PairingDeed::Rest(1)]
            &&& todo2 == seq![m.open_deed()]
            &&& m2 == (PairingModel { state: PairingState::Opening, peer: None, ..m })
        }),
        m.state == PairingState::Exchanging ==> received(m, None) == failed(m),
{
}

/// What happens at a moment when it is not awaited changes nothing, and nothing is done.
pub proof fn lemma_unawaited_events_change_nothing(
    m: PairingModel,
    code: Seq<char>,
    key: Option<Seq<u8>>,
)
    ensures
        m.state != PairingState::Opening ==> opened(m, code) == (m, Seq::<PairingDeed>::empty()),
        m.state != PairingState::Exchanging ==> received(m, key) == (
            m,
            Seq::<PairingDeed>::empty(),
        ),
        m.state != PairingState::Waiting ==> connected(m) == (m, Seq::<PairingDeed>::empty()),
        m.state != PairingState::Serving ==> disconnected(m) == (m, Seq::<PairingDeed>::empty()),
        m.state != PairingState::Resting ==> rested(m) == (m, Seq::<PairingDeed>::empty()),
        m.state == PairingState::Resting ==> failed(m) == (m, Seq::<PairingDeed>::empty()),
{
}

/// The actions are done in the order of the list, each as it says.
pub proof fn lemma_actions_say_what_is_done(actions: Seq<PairingAction>, i: int)
    requires
        0 <= i < actions.len(),
    ensures
        deeds(actions).len() == actions.len(),
        match actions[i] {
            PairingAction::JoinMailbox(code) => deeds(actions)[i] == PairingDeed::JoinMailbox(code@),
            PairingAction::CreateMailbox(words) => deeds(actions)[i] == PairingDeed::CreateMailbox(
                words,
            ),
            PairingAction::ShowCode(code) => deeds(actions)[i] == PairingDeed::ShowCode(code@),
            PairingAction::HideCode => deeds(actions)[i] == PairingDeed::HideCode,
            PairingAction::Exchange => deeds(actions)[i] == PairingDeed::Exchange,
            PairingAction::AwaitConnected(secs) => deeds(actions)[i] == PairingDeed::AwaitConnected(
                secs,
            ),
            PairingAction::AwaitDisconnected => deeds(actions)[i] == PairingDeed::AwaitDisconnected,
            PairingAction::Rest(secs) => deeds(actions)[i] == PairingDeed::Rest(secs),
        },
{
}

} // verus!
