//! The terminal escape parser of the `vte` crate, described by the actions that it reports.
use vstd::prelude::*;
use vstd::slice::slice_to_vec;
use vte::{Params, Parser, Perform};

verus! {

#[verifier::external_type_specification]
#[verifier::external_body]
pub struct ExParser<const N: usize>(Parser<N>);

#[verifier::external_type_specification]
#[verifier::external_body]
pub struct ExParams(Params);

/// What the escape parser reports while it reads a byte stream.
pub enum VtAction {
    /// A printable character.
    Print(char),
    /// A control character.
    Execute(u8),
    /// A control sequence, complete with its final character.
    Csi { params: Vec<Vec<u16>>, intermediates: Vec<u8>, ignore: bool, action: char },
    /// An escape sequence, complete with its final byte.
    Esc { intermediates: Vec<u8>, ignore: bool, byte: u8 },
    /// An operating system command, complete with its terminator.
    Osc { fields: Vec<Vec<u8>>, bell_terminated: bool },
}

/// The mathematical value of a [`VtAction`].
pub ghost enum ActionView {
    Print(char),
    Execute(u8),
    Csi { params: Seq<Seq<u16>>, intermediates: Seq<u8>, ignore: bool, action: char },
    Esc { intermediates: Seq<u8>, ignore: bool, byte: u8 },
    Osc { fields: Seq<Seq<u8>>, bell_terminated: bool },
}

impl View for VtAction {
    type V = ActionView;

    open spec fn view(&self) -> ActionView {
        match *self {
            VtAction::Print(c) => ActionView::Print(c),
            VtAction::Execute(b) => ActionView::Execute(b),
            VtAction::Csi { params, intermediates, ignore, action } => ActionView::Csi {
                params: params.deep_view(),
                intermediates: intermediates@,
                ignore,
                action,
            },
            VtAction::Esc { intermediates, ignore, byte } => ActionView::Esc {
                intermediates: intermediates@,
                ignore,
                byte,
            },
            VtAction::Osc { fields, bell_terminated } => ActionView::Osc {
                fields: fields.deep_view(),
                bell_terminated,
            },
        }
    }
}

/// The mathematical values of a list of actions.
pub open spec fn action_views(actions: Seq<VtAction>) -> Seq<ActionView> {
    actions.map_values(|a: VtAction| a@)
}

/// The state of a parser that has read nothing yet, with room for the given number of bytes of an
/// operating system command where the room is limited at all.
pub uninterp spec fn fresh_parser(osc_raw_buf_size: nat) -> Parser;

/// The actions that a parser reports while it reads `bytes`, and the state it is left in.
pub uninterp spec fn advanced(p: Parser, bytes: Seq<u8>) -> (Seq<ActionView>, Parser);

/// The parameters of a control sequence, each with its subparameters.
pub uninterp spec fn param_list(p: Params) -> Seq<Seq<u16>>;

/// The room for an operating system command in a parser made by `Parser::new`.
pub const OSC_RAW_BUF_SIZE: usize = 1024;

/// `Parser::new` makes a parser that has read nothing.
#[verifier::external_body]
pub(crate) fn new_parser() -> (r: Parser)
    ensures
        r == fresh_parser(OSC_RAW_BUF_SIZE as nat),
{
    Parser::new()
}

/// `Params::iter` walks the parameters in order; each item is one parameter with its
/// subparameters.
#[verifier::external_body]
fn params_to_vec(params: &Params) -> (r: Vec<Vec<u16>>)
    ensures
        r.deep_view() == param_list(*params),
{
    params.iter().map(|sub| sub.to_vec()).collect()
}

/// Writes down each action in the order in which the parser reports it.
pub struct Recorder {
    pub actions: Vec<VtAction>,
}

impl Perform for Recorder {
    fn print(&mut self, c: char)
        ensures
            final(self).actions@ == old(self).actions@.push(VtAction::Print(c)),
    {
        self.actions.push(VtAction::Print(c));
    }

    fn execute(&mut self, byte: u8)
        ensures
            final(self).actions@ == old(self).actions@.push(VtAction::Execute(byte)),
    {
        self.actions.push(VtAction::Execute(byte));
    }

    fn csi_dispatch(&mut self, params: &Params, intermediates: &[u8], ignore: bool, action: char)
        ensures
            action_views(final(self).actions@) == action_views(old(self).actions@).push(
                ActionView::Csi {
                    params: param_list(*params),
                    intermediates: intermediates@,
                    ignore,
                    action,
                },
            ),
    {
        let params: Vec<Vec<u16>> = params_to_vec(params);
        let intermediates: Vec<u8> = slice_to_vec(intermediates);
        self.actions.push(VtAction::Csi { params, intermediates, ignore, action });
        assert(action_views(self.actions@) =~= action_views(old(self).actions@).push(
            self.actions@.last()@,
        ));
    }

    fn esc_dispatch(&mut self, intermediates: &[u8], ignore: bool, byte: u8)
        ensures
            action_views(final(self).actions@) == action_views(old(self).actions@).push(
                ActionView::Esc { intermediates: intermediates@, ignore, byte },
            ),
    {
        let intermediates: Vec<u8> = slice_to_vec(intermediates);
        self.actions.push(VtAction::Esc { intermediates, ignore, byte });
        assert(action_views(self.actions@) =~= action_views(old(self).actions@).push(
            self.actions@.last()@,
        ));
    }

    fn osc_dispatch(&mut self, params: &[&[u8]], bell_terminated: bool)
        ensures
            action_views(final(self).actions@) == action_views(old(self).actions@).push(
                ActionView::Osc {
                    fields: params@.map_values(|p: &[u8]| p@),
                    bell_terminated,
                },
            ),
    {
        let mut fields: Vec<Vec<u8>> = Vec::new();
        let n: usize = params.len();
        let mut i: usize = 0;
        while i < n
            invariant
                i <= n,
                n == params@.len(),
                fields@.len() == i,
                forall|j: int| 0 <= j < i ==> (#[trigger] fields@[j])@ == params@[j]@,
            decreases n - i,
        {
            fields.push(slice_to_vec(params[i]));
            i += 1;
        }
        assert forall|j: int| 0 <= j < n implies fields.deep_view()[j] == params@[j]@ by {
            assert(fields@[j].deep_view() =~= fields@[j]@);
        }
        assert(fields.deep_view() =~= params@.map_values(|p: &[u8]| p@));
        self.actions.push(VtAction::Osc { fields, bell_terminated });
        assert(action_views(self.actions@) =~= action_views(old(self).actions@).push(
            self.actions@.last()@,
        ));
    }
}

/// `Parser::advance` reads `bytes` and reports the actions that they complete, which here are
/// recorded in order. The parser does not look at what is done with an action, so what it reports
/// depends on its state and on the bytes alone.
#[verifier::external_body]
pub(crate) fn advance(parser: &mut Parser, bytes: &[u8]) -> (r: Vec<VtAction>)
    ensures
        action_views(r@) == advanced(*old(parser), bytes@).0,
        *final(parser) == advanced(*old(parser), bytes@).1,
{
    let mut recorder = Recorder { actions: Vec::new() };
    parser.advance(&mut recorder, bytes);
    recorder.actions
}

/// What is reported is told as it is: each action of the list in its place, with all that belongs to
/// it.
pub proof fn lemma_reports_are_told_as_they_are(actions: Seq<VtAction>, i: int)
    requires
        0 <= i < actions.len(),
    ensures
        action_views(actions).len() == actions.len(),
        match actions[i] {
            VtAction::Print(c) => action_views(actions)[i] == ActionView::Print(c),
            VtAction::Execute(b) => action_views(actions)[i] == ActionView::Execute(b),
            VtAction::Csi { params, intermediates, ignore, action } => action_views(actions)[i]
                == (ActionView::Csi {
                params: params.deep_view(),
                intermediates: intermediates@,
                ignore,
                action,
            }),
            VtAction::Esc { intermediates, ignore, byte } => action_views(actions)[i] == (
            ActionView::Esc { intermediates: intermediates@, ignore, byte }),
            VtAction::Osc { fields, bell_terminated } => action_views(actions)[i] == (
            ActionView::Osc { fields: fields.deep_view(), bell_terminated }),
        },
{
}

} // verus!
