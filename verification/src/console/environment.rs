//! What the local terminal can do, as the environment tells it.
use crate::console::status_bar::ColorSupport;
use crate::strings::{
    contains_text, lemma_part_of_a_text, lowercase, occurs_in, same_str, starts_with,
};
use vstd::prelude::*;
use vstd::string::*;

verus! {

/// The variables of the environment that tell about the terminal.
pub struct Environment {
    pub term: Option<String>,
    pub colorterm: Option<String>,
    /// Whether the Windows terminal has set its variable.
    pub wt_session: bool,
    /// Whether the terminal names itself.
    pub term_program: bool,
    /// Whether Konsole has set its variable.
    pub konsole_version: bool,
    /// Whether tmux has set its variable.
    pub tmux: bool,
    pub lc_all: Option<String>,
    pub lc_ctype: Option<String>,
    pub lang: Option<String>,
}

/// A variable in lower case, empty if it is not set.
pub open spec fn lowered(v: Option<String>) -> Seq<char> {
    match v {
        Some(s) => lowercase(s@),
        None => Seq::empty(),
    }
}

impl Environment {
    /// Whether this is the console of Linux, which shows little more than ASCII.
    pub open spec fn on_linux_console(self) -> bool {
        self.term is Some && "linux"@.is_prefix_of(lowered(self.term))
    }

    /// Whether this is one of the terminals that are known to show all characters.
    pub open spec fn in_modern_terminal(self) -> bool {
        self.wt_session || self.term_program || self.konsole_version || self.tmux
    }

    /// The locale: the first of three variables that is set.
    pub open spec fn locale(self) -> Option<String> {
        if self.lc_all is Some {
            self.lc_all
        } else if self.lc_ctype is Some {
            self.lc_ctype
        } else {
            self.lang
        }
    }

    /// Whether the locale speaks of UTF-8.
    pub open spec fn has_utf8_locale(self) -> bool {
        occurs_in("utf-8"@, lowered(self.locale())) || occurs_in("utf8"@, lowered(self.locale()))
    }

    /// Whether the local terminal shows more than ASCII.
    pub open spec fn unicode(self, windows: bool) -> bool {
        !self.on_linux_console() && (self.in_modern_terminal() || self.has_utf8_locale() || windows)
    }

    /// How many colours the local terminal has.
    pub open spec fn colors(self) -> ColorSupport {
        let term = lowered(self.term);
        if self.colorterm is Some && (self.colorterm->Some_0@ == "truecolor"@
            || self.colorterm->Some_0@ == "24bit"@) {
            ColorSupport::TrueColor
        } else if self.term is Some && (occurs_in("256color"@, term) || occurs_in("256"@, term)) {
            ColorSupport::Ansi256
        } else if self.term is Some && (term == "linux"@ || term == "dumb"@ || "vt"@.is_prefix_of(
            term,
        )) {
            ColorSupport::Basic
        } else {
            ColorSupport::Ansi256
        }
    }

    /// Whether the local terminal shows more than ASCII. On Windows it does unless it is known not
    /// to.
    pub fn supports_unicode(&self, windows: bool) -> (r: bool)
        ensures
            r == self.unicode(windows),
    {
        if let Some(term) = &self.term {
            if starts_with(term.as_str().to_lowercase().as_str(), "linux") {
                return false;
            }
        }
        if self.wt_session || self.term_program || self.konsole_version || self.tmux {
            return true;
        }
        let locale: &Option<String> = if self.lc_all.is_some() {
            &self.lc_all
        } else if self.lc_ctype.is_some() {
            &self.lc_ctype
        } else {
            &self.lang
        };
        let lower: String = match locale {
            Some(s) => s.as_str().to_lowercase(),
            None => String::new(),
        };
        assert(lower@ =~= lowered(self.locale()));
        if contains_text(lower.as_str(), "utf-8") || contains_text(lower.as_str(), "utf8") {
            return true;
        }
        windows
    }

    /// How many colours the local terminal has. Most have at least 256.
    pub fn detect_color_support(&self) -> (r: ColorSupport)
        ensures
            r == self.colors(),
    {
        if let Some(ct) = &self.colorterm {
            if same_str(ct.as_str(), "truecolor") || same_str(ct.as_str(), "24bit") {
                return ColorSupport::TrueColor;
            }
        }
        if let Some(term) = &self.term {
            let lower: String = term.as_str().to_lowercase();
            let lower: &str = lower.as_str();
            if contains_text(lower, "256color") || contains_text(lower, "256") {
                return ColorSupport::Ansi256;
            }
            if same_str(lower, "linux") || same_str(lower, "dumb") || starts_with(lower, "vt") {
                return ColorSupport::Basic;
            }
        }
        ColorSupport::Ansi256
    }
}

/// The console of Linux never counts as showing more than ASCII, whatever else the environment says.
pub proof fn lemma_linux_console_shows_ascii(e: Environment, windows: bool, term: String)
    requires
        e.term == Some(term),
        "linux"@.is_prefix_of(lowercase(term@)),
    ensures
        !e.unicode(windows),
{
}

/// Any other terminal shows more than ASCII if it is one of those that are known to, if the system is
/// Windows, or if the locale says so.
pub proof fn lemma_which_terminals_show_all(e: Environment, windows: bool)
    requires
        e.term is None || !"linux"@.is_prefix_of(lowercase(e.term->Some_0@)),
    ensures
        e.wt_session || e.term_program || e.konsole_version || e.tmux || windows ==> e.unicode(
            windows,
        ),
        !e.wt_session && !e.term_program && !e.konsole_version && !e.tmux && !windows ==> (
        e.unicode(windows) <==> speaks_of_utf8(
            match (e.lc_all, e.lc_ctype, e.lang) {
                (Some(all), _, _) => lowercase(all@),
                (None, Some(ctype), _) => lowercase(ctype@),
                (None, None, Some(lang)) => lowercase(lang@),
                (None, None, None) => Seq::empty(),
            },
        )),
{
    let text = match (e.lc_all, e.lc_ctype, e.lang) {
        (Some(all), _, _) => lowercase(all@),
        (None, Some(ctype), _) => lowercase(ctype@),
        (None, None, Some(lang)) => lowercase(lang@),
        (None, None, None) => Seq::empty(),
    };
    assert(lowered(e.locale()) == text);
    lemma_part_of_a_text("utf-8"@, text);
    lemma_part_of_a_text("utf8"@, text);
}

/// Whether a text has a name of UTF-8 in it.
pub open spec fn speaks_of_utf8(text: Seq<char>) -> bool {
    ||| exists|before: Seq<char>, after: Seq<char>|
        text == #[trigger] (before + "utf-8"@ + after)
    ||| exists|before: Seq<char>, after: Seq<char>| text == #[trigger] (before + "utf8"@ + after)
}

/// The locale is what the most specific variable says: a less specific one does not count where the
/// more specific one is set.
pub proof fn lemma_specific_locale_wins(e: Environment, f: Environment, windows: bool)
    requires
        e.term == f.term,
        e.wt_session == f.wt_session,
        e.term_program == f.term_program,
        e.konsole_version == f.konsole_version,
        e.tmux == f.tmux,
        e.lc_all == f.lc_all,
        e.lc_all is Some || e.lc_ctype == f.lc_ctype && (e.lc_ctype is Some || e.lang == f.lang),
    ensures
        e.unicode(windows) == f.unicode(windows),
{
}

/// A terminal that says so has 16 million colours. Otherwise only the consoles that are known to be
/// plain have the standard colours alone, unless they say that they have 256, which all others have.
pub proof fn lemma_how_many_colours(e: Environment)
    ensures
        e.colors() == ColorSupport::TrueColor <==> (e.colorterm matches Some(s) && (s@
            == "truecolor"@ || s@ == "24bit"@)),
        e.colors() == ColorSupport::Basic <==> !(e.colorterm matches Some(s) && (s@ == "truecolor"@
            || s@ == "24bit"@)) && (e.term matches Some(term) && !(exists|
            before: Seq<char>,
            after: Seq<char>,
        |
            lowercase(term@) == #[trigger] (before + "256"@ + after)) && (lowercase(term@) == "linux"@
            || lowercase(term@) == "dumb"@ || "vt"@.is_prefix_of(lowercase(term@)))),
{
    if let Some(term) = e.term {
        let t = lowercase(term@);
        lemma_part_of_a_text("256color"@, t);
        lemma_part_of_a_text("256"@, t);
        if exists|before: Seq<char>, after: Seq<char>| t == #[trigger] (before + "256color"@ + after) {
            let (before, after) = choose|before: Seq<char>, after: Seq<char>|
                t == #[trigger] (before + "256color"@ + after);
            reveal_strlit("256color");
            reveal_strlit("256");
            reveal_strlit("color");
            assert("256color"@ =~= "256"@ + "color"@);
            assert(t =~= before + "256"@ + ("color"@ + after));
        }
    }
}

} // verus!
