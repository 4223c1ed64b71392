//! The browser-facing runner: a logger that writes to the console, and the
//! runner's options.
use vstd::prelude::*;

verus! {

/// A logger for the browser console. Its methods give the line to write;
/// the console itself is written by the caller.
pub struct BaseLogger {
    verbose: bool,
}

/// The debug line for `message`: `*`, then a space and the message when
/// the message is not empty.
pub open spec fn debug_line(message: Seq<char>) -> Seq<char> {
    if message.len() == 0 {
        "*"@
    } else {
        "* "@ + message
    }
}

/// The error line for `message`: `error: ` then the message.
pub open spec fn error_line(message: Seq<char>) -> Seq<char> {
    "error: "@ + message
}

impl BaseLogger {
    /// Creates a new base logger using `verbose`.
    pub fn new(verbose: bool) -> (r: BaseLogger)
        ensures
            r.is_verbose() == verbose,
    {
        BaseLogger { verbose }
    }

    /// Whether debug messages are written.
    pub closed spec fn is_verbose(&self) -> bool {
        self.verbose
    }

    /// The informational line for `message`: the message itself.
    pub fn info(&self, message: &str) -> (r: String)
        ensures
            r@ == message@,
    {
        message.to_owned()
    }

    /// The debug line for `message`, when the logger is in verbose mode.
    pub fn debug(&self, message: &str) -> (r: Option<String>)
        ensures
            !self.is_verbose() ==> r is None,
            self.is_verbose() ==> (r matches Some(line) && line@ == debug_line(message@)),
    {
        if !self.verbose {
            return None;
        }
        let star = "*";
        let space = " ";
        proof {
            reveal_strlit("*");
            reveal_strlit(" ");
            reveal_strlit("* ");
        }
        let mut s = String::new();
        s.append(star);
        if !message.is_empty() {
            s.append(space);
            s.append(message);
        }
        assert(s@ =~= debug_line(message@));
        Some(s)
    }

    /// The error line for `message`.
    pub fn error(&self, message: &str) -> (r: String)
        ensures
            r@ == error_line(message@),
    {
        let mut s = String::new();
        s.append("error");
        s.append(": ");
        s.append(message);
        proof {
            reveal_strlit("error");
            reveal_strlit(": ");
            reveal_strlit("error: ");
        }
        assert(s@ =~= error_line(message@));
        s
    }
}

/// Options of a run.
#[derive(Clone, Debug)]
pub struct RunOptions {
    pub verbose: bool,
    pub very_verbose: bool,
    pub variable_file: String,
}

/// The runner, holding its options.
pub struct HurlFmt {
    options: RunOptions,
}

impl HurlFmt {
    /// A runner with `options`.
    pub fn new(options: RunOptions) -> (r: HurlFmt)
        ensures
            r.options() == options,
    {
        HurlFmt { options }
    }

    /// The runner's options.
    pub closed spec fn options(&self) -> RunOptions {
        self.options
    }

    /// Runs a Hurl file given as text. Running is not available in this
    /// build: the result is always empty.
    pub fn run_hurl(&self, code: &str) -> (r: String)
        ensures
            r@ == Seq::<char>::empty(),
    {
        String::new()
    }
}

} // verus!
