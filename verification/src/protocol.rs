//! The messages that the two ends of a session exchange.
use crate::buffer::frozen;
use bytes::Bytes;
use vstd::prelude::*;

verus! {

/// Seconds after which a helper that was not heard from no longer counts.
pub const TIMEOUT: u64 = 10;

/// Tells one helper from another.
#[derive(Debug, Clone, Copy, PartialEq, Eq, Hash, Structural)]
pub struct HelperId(pub u64);

impl From<u64> for HelperId {
    fn from(value: u64) -> (r: Self) {
        HelperId(value)
    }
}

impl vstd::std_specs::convert::FromSpecImpl<u64> for HelperId {
    open spec fn obeys_from_spec() -> bool {
        true
    }

    open spec fn from_spec(value: u64) -> Self {
        HelperId(value)
    }
}

/// Full terminal screen size
#[derive(Debug, Clone, Copy, PartialEq, Eq, Structural)]
pub struct PtySize {
    pub cols: u16,
    pub rows: u16,
}

impl Default for PtySize {
    fn default() -> (r: Self)
        ensures
            r.cols == 0,
            r.rows == 0,
    {
        PtySize { cols: 0, rows: 0 }
    }
}

/// The smaller of two numbers.
pub open spec fn min_u16(a: u16, b: u16) -> u16 {
    if a <= b {
        a
    } else {
        b
    }
}

impl PtySize {
    /// Whether there is at least one row and one column.
    pub open spec fn visible(self) -> bool {
        self.cols >= 1 && self.rows >= 1
    }

    /// The largest size that fits in both sizes.
    pub open spec fn meet(self, other: Self) -> Self {
        PtySize { cols: min_u16(self.cols, other.cols), rows: min_u16(self.rows, other.rows) }
    }

    /// Whether this size fits in the other.
    pub open spec fn fits_in(self, other: Self) -> bool {
        self.cols <= other.cols && self.rows <= other.rows
    }

    /// The smaller of the two widths and the smaller of the two heights.
    pub fn min_dimensions(self, other: Self) -> (r: Self)
        ensures
            r == self.meet(other),
    {
        PtySize {
            cols: if self.cols <= other.cols {
                self.cols
            } else {
                other.cols
            },
            rows: if self.rows <= other.rows {
                self.rows
            } else {
                other.rows
            },
        }
    }
}

/// What a helper tells the victim.
#[derive(Debug)]
pub enum ToVictim {
    /// Keystrokes for the shell.
    Data(Bytes),
    /// The screen that this helper has.
    SizeHint { id: HelperId, size: PtySize },
    /// This helper leaves.
    Bye { id: HelperId },
    /// Show the screen as it was `offset` lines ago.
    RequestScrollTo { offset: u16 },
}

/// What the victim tells its helpers.
#[derive(Debug)]
pub enum ToHelper {
    /// Output of the shell.
    Data(Bytes),
    /// The size of the shared screen.
    SetSize(PtySize),
    /// The session ends.
    Bye,
    /// How many helpers are connected.
    ConnectedHelpers(u8),
    /// The screen is shown as it was `offset` lines ago.
    ScrollTo { offset: u16 },
}

/// What a victim tells a helper that knows the code: its public key, the relay that it is connected
/// to, and the addresses at which it can be reached directly.
pub struct HandshakePayload {
    pub public_key: [u8; 32],
    pub relay_url: Option<String>,
    pub direct_addresses: Vec<String>,
}

/// The mathematical value of a [`ToVictim`].
pub ghost enum VictimMessage {
    Data(Seq<u8>),
    SizeHint { id: HelperId, size: PtySize },
    Bye { id: HelperId },
    RequestScrollTo { offset: u16 },
}

impl View for ToVictim {
    type V = VictimMessage;

    open spec fn view(&self) -> VictimMessage {
        match *self {
            ToVictim::Data(bytes) => VictimMessage::Data(frozen(bytes)),
            ToVictim::SizeHint { id, size } => VictimMessage::SizeHint { id, size },
            ToVictim::Bye { id } => VictimMessage::Bye { id },
            ToVictim::RequestScrollTo { offset } => VictimMessage::RequestScrollTo { offset },
        }
    }
}

/// The mathematical value of a [`ToHelper`].
pub ghost enum HelperMessage {
    Data(Seq<u8>),
    SetSize(PtySize),
    Bye,
    ConnectedHelpers(u8),
    ScrollTo { offset: u16 },
}

impl View for ToHelper {
    type V = HelperMessage;

    open spec fn view(&self) -> HelperMessage {
        match *self {
            ToHelper::Data(bytes) => HelperMessage::Data(frozen(bytes)),
            ToHelper::SetSize(size) => HelperMessage::SetSize(size),
            ToHelper::Bye => HelperMessage::Bye,
            ToHelper::ConnectedHelpers(n) => HelperMessage::ConnectedHelpers(n),
            ToHelper::ScrollTo { offset } => HelperMessage::ScrollTo { offset },
        }
    }
}

/// The shared screen fits in each of the two, and nothing larger does.
pub proof fn lemma_meet_is_greatest_lower_bound(a: PtySize, b: PtySize, c: PtySize)
    ensures
        a.meet(b).fits_in(a),
        a.meet(b).fits_in(b),
        c.fits_in(a) && c.fits_in(b) <==> c.fits_in(a.meet(b)),
{
}

/// In which order sizes are combined, and how often, does not matter.
pub proof fn lemma_meet_is_a_semilattice(a: PtySize, b: PtySize, c: PtySize)
    ensures
        a.meet(b) == b.meet(a),
        a.meet(b).meet(c) == a.meet(b.meet(c)),
        a.meet(a) == a,
{
}

/// A message holds what it says: the bytes, the helper, the size or the place in time.
pub proof fn lemma_messages_hold_what_they_say(
    bytes: Bytes,
    id: HelperId,
    size: PtySize,
    offset: u16,
    n: u8,
)
    ensures
        ToVictim::Data(bytes)@ == VictimMessage::Data(frozen(bytes)),
        (ToVictim::SizeHint { id, size })@ == (VictimMessage::SizeHint { id, size }),
        (ToVictim::Bye { id })@ == (VictimMessage::Bye { id }),
        (ToVictim::RequestScrollTo { offset })@ == (VictimMessage::RequestScrollTo { offset }),
        ToHelper::Data(bytes)@ == HelperMessage::Data(frozen(bytes)),
        ToHelper::SetSize(size)@ == HelperMessage::SetSize(size),
        ToHelper::Bye@ == HelperMessage::Bye,
        ToHelper::ConnectedHelpers(n)@ == HelperMessage::ConnectedHelpers(n),
        (ToHelper::ScrollTo { offset })@ == (HelperMessage::ScrollTo { offset }),
{
}

} // verus!
