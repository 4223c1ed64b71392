//! The formatter's input format.
use vstd::prelude::*;

verus! {

/// The format of a formatter's input.
#[derive(Clone, Copy, Debug, PartialEq, Eq)]
pub enum InputFormat {
    Hurl,
    Curl,
}

/// The name of an input format.
pub open spec fn format_name(f: InputFormat) -> Seq<char> {
    match f {
        InputFormat::Hurl => "Hurl"@,
        InputFormat::Curl => "Curl"@,
    }
}

impl InputFormat {
    /// The format's name: `Hurl` or `Curl`.
    pub fn to_string(&self) -> (r: String)
        ensures
            r@ == format_name(*self),
    {
        match self {
            InputFormat::Hurl => "Hurl".to_owned(),
            InputFormat::Curl => "Curl".to_owned(),
        }
    }
}

/// The formatter, holding its input format.
pub struct HurlFmt {
    pub input_format: InputFormat,
}

impl HurlFmt {
    /// A formatter for `input_format`.
    pub fn new(input_format: InputFormat) -> (r: HurlFmt)
        ensures
            r.input_format == input_format,
    {
        HurlFmt { input_format }
    }
}

} // verus!
