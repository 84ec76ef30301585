//! Questions to the user.
use crate::strings::{lowercase, same_str, trim, trimmed};
use crate::text::string_of;
use vstd::prelude::*;
use vstd::string::*;

verus! {

/// Indicator that a task was cancelled.
#[derive(Debug, Clone, Copy, PartialEq, Eq, Structural)]
pub struct Cancelled;

impl Cancelled {
    /// What the user is told.
    pub fn message(&self) -> (r: &'static str)
        ensures
            r@ == "Task has been cancelled"@,
    {
        "Task has been cancelled"
    }
}

/// A question that can be answered with yes or no. The answer that counts where none is given is in
/// upper case.
pub open spec fn question_text(message: Seq<char>, default_answer: bool) -> Seq<char> {
    message + (if default_answer {
        " (Y/n) "@
    } else {
        " (y/N) "@
    })
}

/// What a line of the user says: yes, no, or nothing that is understood.
pub open spec fn answer_of(line: Seq<char>, default_answer: bool) -> Option<bool> {
    let word = trimmed(lowercase(line));
    if word == "y"@ || word == "yes"@ {
        Some(true)
    } else if word == "n"@ || word == "no"@ {
        Some(false)
    } else if word == ""@ {
        Some(default_answer)
    } else {
        None
    }
}

/// A question that can be answered with yes or no.
pub fn question(message: &str, default_answer: bool) -> (r: String)
    ensures
        r@ == question_text(message@, default_answer),
{
    let mut out: Vec<char> = crate::text::chars_of(message);
    let mut choice: Vec<char> = if default_answer {
        crate::text::chars_of(" (Y/n) ")
    } else {
        crate::text::chars_of(" (y/N) ")
    };
    out.append(&mut choice);
    string_of(out.as_slice())
}

/// What a line of the user says. Where it is not understood, the user is asked again.
pub fn parse_answer(line: &str, default_answer: bool) -> (r: Option<bool>)
    ensures
        r == answer_of(line@, default_answer),
{
    let lower: String = line.to_lowercase();
    let word: String = trim(lower.as_str());
    let word: &str = word.as_str();
    if same_str(word, "y") || same_str(word, "yes") {
        Some(true)
    } else if same_str(word, "n") || same_str(word, "no") {
        Some(false)
    } else if same_str(word, "") {
        Some(default_answer)
    } else {
        None
    }
}

/// What the user is told before the question comes again.
pub fn retry_hint() -> (r: &'static str)
    ensures
        r@ == "Please type y or n!\n"@,
{
    "Please type y or n!\n"
}

/// A clear answer does not depend on which one counts where none is given.
pub proof fn lemma_clear_answer_ignores_default(line: Seq<char>)
    requires
        trimmed(lowercase(line)) != ""@,
    ensures
        answer_of(line, true) == answer_of(line, false),
{
}

/// An answer is yes or no if and only if it is one of the two words for it or their first letters,
/// whatever the case and the blanks around it. An empty line is the answer that counts where none is
/// given, and nothing else is an answer.
pub proof fn lemma_what_counts_as_an_answer(line: Seq<char>, default_answer: bool)
    ensures
        ({
            let word = trimmed(lowercase(line));
            let yes = word == "y"@ || word == "yes"@;
            let no = word == "n"@ || word == "no"@;
            &&& yes ==> answer_of(line, default_answer) == Some(true)
            &&& no ==> answer_of(line, default_answer) == Some(false)
            &&& word.len() == 0 ==> answer_of(line, default_answer) == Some(default_answer)
            &&& !yes && !no && word.len() > 0 ==> answer_of(line, default_answer) is None
        }),
{
    reveal_strlit("y");
    reveal_strlit("yes");
    reveal_strlit("n");
    reveal_strlit("no");
    reveal_strlit("");
    let word = trimmed(lowercase(line));
    if word.len() == 0 {
        assert(word =~= ""@);
    }
    assert("y"@[0] != "n"@[0]);
    assert("yes"@[0] != "n"@[0]);
    assert("no"@[0] != "y"@[0]);
}

/// A question begins with what is asked, and shows in upper case the answer that counts where none is
/// given.
pub proof fn lemma_question_shows_default(message: Seq<char>)
    ensures
        message.is_prefix_of(question_text(message, true)),
        message.is_prefix_of(question_text(message, false)),
        question_text(message, true).skip(message.len() as int) == " (Y/n) "@,
        question_text(message, false).skip(message.len() as int) == " (y/N) "@,
{
    let yes = question_text(message, true);
    let no = question_text(message, false);
    assert(yes.take(message.len() as int) =~= message);
    assert(no.take(message.len() as int) =~= message);
    assert(yes.skip(message.len() as int) =~= " (Y/n) "@);
    assert(no.skip(message.len() as int) =~= " (y/N) "@);
}

} // verus!
