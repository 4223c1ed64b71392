//! The runner that holds the content of a Hurl file.
use vstd::prelude::*;

verus! {

/// Options of a run.
#[derive(Clone, Debug)]
pub struct RunOptions {
    pub verbose: bool,
    pub very_verbose: bool,
    pub variable_file: String,
}

/// The runner, holding the Hurl file's content.
pub struct HurlFmt {
    hurl_content: String,
}

impl HurlFmt {
    /// A runner for `hurl_content`.
    pub fn new(hurl_content: String) -> (r: HurlFmt)
        ensures
            r.content() == hurl_content@,
    {
        HurlFmt { hurl_content }
    }

    /// The Hurl file's content.
    pub closed spec fn content(&self) -> Seq<char> {
        self.hurl_content@
    }

    /// Runs the Hurl file with `options`. Running is not available in this
    /// build: the result is always empty.
    pub fn run_hurl(&self, options: RunOptions) -> (r: String)
        ensures
            r@ == Seq::<char>::empty(),
    {
        String::new()
    }
}

} // verus!
