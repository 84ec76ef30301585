//! The title of the local terminal while a session runs.
use crate::buffer::{buffered, frozen};
use crate::text::{lemma_ascii_is_utf8, lemma_utf8_joined, push_text};
use bytes::{Bytes, BytesMut};
use vstd::prelude::*;
use vstd::string::*;
use vstd::utf8::*;

verus! {

/// The name of the session in brackets, nothing if it has none.
pub open spec fn name_part(name: Seq<char>) -> Seq<u8> {
    if name.len() == 0 {
        Seq::empty()
    } else {
        encode_utf8(" ["@) + encode_utf8(name) + encode_utf8("]"@)
    }
}

/// The command that runs, nothing if there is none.
pub open spec fn command_part(command: Seq<char>) -> Seq<u8> {
    if command.len() == 0 {
        Seq::empty()
    } else {
        encode_utf8(": "@) + encode_utf8(command)
    }
}

/// The code that sets the title to what a session is called.
pub open spec fn title_code(name: Seq<char>, command: Seq<char>) -> Seq<u8> {
    encode_utf8("\x1b]0;rescue-shell"@) + name_part(name) + command_part(command) + encode_utf8(
        "\x07"@,
    )
}

/// The code that remembers the title that the terminal has.
pub open spec fn push_code() -> Seq<u8> {
    encode_utf8("\x1b[22;0t"@)
}

/// The code that brings back the title that was remembered.
pub open spec fn pop_code() -> Seq<u8> {
    encode_utf8("\x1b[23;0t"@)
}

/// The title of a session.
pub struct TitleSession {
    name: String,
}

impl TitleSession {
    /// What the session is called.
    pub closed spec fn name(self) -> Seq<char> {
        self.name@
    }

    /// A session with the given name, and the codes that remember the title of the terminal and set
    /// that of the session.
    pub fn new(name: String) -> (r: (Self, Bytes))
        ensures
            r.0.name() == name@,
            frozen(r.1) == push_code() + title_code(name@, Seq::empty()),
    {
        let mut out: BytesMut = BytesMut::new();
        let session: TitleSession = TitleSession { name };
        push_text(&mut out, "\x1b[22;0t");
        session.push_title(&mut out, "");
        proof {
            reveal_strlit("");
            assert(""@ =~= Seq::<char>::empty());
            assert(buffered(out) =~= push_code() + title_code(session.name@, Seq::empty()));
        }
        (session, out.freeze())
    }

    /// The codes that let the title tell which command runs.
    pub fn set_command(&self, command: &str) -> (r: Bytes)
        ensures
            frozen(r) == title_code(self.name(), command@),
    {
        let mut out: BytesMut = BytesMut::new();
        self.push_title(&mut out, command);
        assert(buffered(out) =~= title_code(self.name(), command@));
        out.freeze()
    }

    /// The codes that bring back the title that the terminal had before.
    pub fn restore(self) -> (r: Bytes)
        ensures
            frozen(r) == pop_code(),
    {
        let mut out: BytesMut = BytesMut::new();
        push_text(&mut out, "\x1b[23;0t");
        assert(buffered(out) =~= pop_code());
        out.freeze()
    }

    fn push_title(&self, out: &mut BytesMut, command: &str)
        ensures
            buffered(*final(out)) == buffered(*old(out)) + title_code(self.name@, command@),
    {
        let ghost start = buffered(*out);
        push_text(out, "\x1b]0;rescue-shell");
        if self.name.as_str().unicode_len() != 0 {
            push_text(out, " [");
            push_text(out, self.name.as_str());
            push_text(out, "]");
        }
        if command.unicode_len() != 0 {
            push_text(out, ": ");
            push_text(out, command);
        }
        push_text(out, "\x07");
        assert(buffered(*out) =~= start + title_code(self.name@, command@));
    }
}

/// The title is one text: the program, the name of the session in brackets if it has one, and the
/// command after a colon if one runs.
pub proof fn lemma_title_is_one_text(name: Seq<char>, command: Seq<char>)
    ensures
        title_code(name, command) == encode_utf8(
            "\x1b]0;rescue-shell"@ + (if name.len() > 0 {
                " ["@ + name + "]"@
            } else {
                Seq::empty()
            }) + (if command.len() > 0 {
                ": "@ + command
            } else {
                Seq::empty()
            }) + "\x07"@,
        ),
{
    let a = if name.len() > 0 {
        " ["@ + name + "]"@
    } else {
        Seq::empty()
    };
    let b = if command.len() > 0 {
        ": "@ + command
    } else {
        Seq::empty()
    };
    lemma_utf8_joined("\x1b]0;rescue-shell"@ + a + b, "\x07"@);
    lemma_utf8_joined("\x1b]0;rescue-shell"@ + a, b);
    lemma_utf8_joined("\x1b]0;rescue-shell"@, a);
    lemma_utf8_joined(" ["@ + name, "]"@);
    lemma_utf8_joined(" ["@, name);
    lemma_utf8_joined(": "@, command);
    assert(encode_utf8(Seq::<char>::empty()) =~= Seq::<u8>::empty());
    assert(name_part(name) == encode_utf8(a));
    assert(command_part(command) == encode_utf8(b));
}

/// Sessions with different names have different titles, and so have different commands of one
/// session.
pub proof fn lemma_titles_tell_apart(
    name: Seq<char>,
    other_name: Seq<char>,
    command: Seq<char>,
    other_command: Seq<char>,
)
    ensures
        command != other_command ==> title_code(name, command) != title_code(name, other_command),
        name != other_name ==> title_code(name, command) != title_code(other_name, command),
{
    let head = encode_utf8("\x1b]0;rescue-shell"@);
    let bell = encode_utf8("\x07"@);
    let n = name_part(name);
    let c = command_part(command);
    if command != other_command {
        let d = command_part(other_command);
        lemma_command_parts_differ(command, other_command);
        assert(title_code(name, command) =~= (head + n) + c + bell);
        assert(title_code(name, other_command) =~= (head + n) + d + bell);
        lemma_middle_tells(head + n, c, d, bell);
    }
    if name != other_name {
        let o = name_part(other_name);
        lemma_name_parts_differ(name, other_name);
        assert(title_code(name, command) =~= head + n + (c + bell));
        assert(title_code(other_name, command) =~= head + o + (c + bell));
        lemma_middle_tells(head, n, o, c + bell);
    }
}

proof fn lemma_name_parts_differ(a: Seq<char>, b: Seq<char>)
    requires
        a != b,
    ensures
        name_part(a) != name_part(b),
{
    reveal_strlit("]");
    lemma_some_bytes("]"@);
    let left = encode_utf8(" ["@);
    let right = encode_utf8("]"@);
    lemma_utf8_tells(a, b);
    if a.len() == 0 {
        assert(a =~= Seq::<char>::empty());
        assert(b.len() > 0) by {
            if b.len() == 0 {
                assert(b =~= a);
            }
        }
        assert(name_part(b).len() > 0);
    } else if b.len() == 0 {
        assert(name_part(a).len() > 0);
    } else {
        lemma_middle_tells(left, encode_utf8(a), encode_utf8(b), right);
    }
}

proof fn lemma_command_parts_differ(a: Seq<char>, b: Seq<char>)
    requires
        a != b,
    ensures
        command_part(a) != command_part(b),
{
    reveal_strlit(": ");
    lemma_some_bytes(": "@);
    let left = encode_utf8(": "@);
    let none = Seq::<u8>::empty();
    lemma_utf8_tells(a, b);
    if a.len() == 0 {
        assert(b.len() > 0) by {
            if b.len() == 0 {
                assert(b =~= a);
            }
        }
        assert(command_part(b).len() > 0);
    } else if b.len() == 0 {
        assert(command_part(a).len() > 0);
    } else {
        lemma_middle_tells(left, encode_utf8(a), encode_utf8(b), none);
        assert(left + encode_utf8(a) + none =~= left + encode_utf8(a));
        assert(left + encode_utf8(b) + none =~= left + encode_utf8(b));
    }
}

proof fn lemma_utf8_tells(a: Seq<char>, b: Seq<char>)
    requires
        a != b,
    ensures
        encode_utf8(a) != encode_utf8(b),
{
    encode_utf8_decode_utf8(a);
    encode_utf8_decode_utf8(b);
}

proof fn lemma_some_bytes(a: Seq<char>)
    requires
        a.len() > 0,
    ensures
        encode_utf8(a).len() > 0,
{
    if encode_utf8(a).len() == 0 {
        assert(encode_utf8(a) =~= encode_utf8(Seq::<char>::empty()));
        lemma_utf8_tells(a, Seq::empty());
    }
}

proof fn lemma_middle_tells(head: Seq<u8>, x: Seq<u8>, y: Seq<u8>, tail: Seq<u8>)
    requires
        x != y,
    ensures
        head + x + tail != head + y + tail,
{
    let a = head + x + tail;
    let b = head + y + tail;
    if a == b {
        let n = head.len() as int;
        assert(a.len() == head.len() + x.len() + tail.len());
        assert(b.len() == head.len() + y.len() + tail.len());
        assert(x =~= a.subrange(n, n + x.len()));
        assert(y =~= b.subrange(n, n + y.len()));
    }
}

/// The title that the terminal had is put on the stack and taken off again.
pub proof fn lemma_title_is_kept_on_the_stack()
    ensures
        push_code() == seq![0x1bu8, 0x5b, 0x32, 0x32, 0x3b, 0x30, 0x74],
        pop_code() == seq![0x1bu8, 0x5b, 0x32, 0x33, 0x3b, 0x30, 0x74],
{
    reveal_strlit("\x1b[22;0t");
    reveal_strlit("\x1b[23;0t");
    lemma_ascii_is_utf8("\x1b[22;0t"@);
    lemma_ascii_is_utf8("\x1b[23;0t"@);
    assert(push_code() =~= seq![0x1bu8, 0x5b, 0x32, 0x32, 0x3b, 0x30, 0x74]);
    assert(pop_code() =~= seq![0x1bu8, 0x5b, 0x32, 0x33, 0x3b, 0x30, 0x74]);
}

} // verus!
