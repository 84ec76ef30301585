//! The local console: keyboard input, the status bar, the picture of the remote screen.
pub mod clipboard;
pub mod environment;
pub mod local_console;
pub mod negotiator;
pub mod responder;
pub mod status_bar;
pub mod stdin;
pub mod stdin_parser;
pub mod title;

pub use self::clipboard::Osc52Extractor;
pub use self::environment::Environment;
pub use self::local_console::{LocalConsole, SCROLLBACK_LINES};
pub use self::negotiator::TerminalSizeNegotiator;
pub use self::responder::PtyResponder;
pub use self::status_bar::{ColorSupport, InternetState, Role, StatusBarState, WormholeCodeState};
pub use self::stdin::{LocalEvent, StdinPerformer, StdinProcessor};
