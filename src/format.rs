//! Choice of how results are rendered.
use vstd::prelude::*;
use vstd::string::StringExecFns;

verus! {

/// How the results of a run are rendered.
#[derive(Clone, Copy, Debug, PartialEq, Eq, Structural)]
pub enum OutputFormat {
    Json,
    Hex,
    Binary,
    Human,
}

/// What `str::to_lowercase` yields for `s`.
pub uninterp spec fn lowercase_of(s: Seq<char>) -> Seq<char>;

/// Relies on `str::to_lowercase`: the result depends on the characters alone.
#[verifier::external_body]
fn to_lowercase(s: &str) -> (r: String)
    ensures
        r@ == lowercase_of(s@),
{
    s.to_lowercase()
}

/// The format a lower-case name selects; unknown names select JSON.
pub open spec fn format_named(name: Seq<char>) -> OutputFormat {
    if name == "hex"@ {
        OutputFormat::Hex
    } else if name == "binary"@ {
        OutputFormat::Binary
    } else if name == "human"@ {
        OutputFormat::Human
    } else {
        OutputFormat::Json
    }
}

impl OutputFormat {
    /// Selects a format by its lower-case name.
    pub fn from_lowercase_name(name: &String) -> (r: OutputFormat)
        ensures
            r == format_named(name@),
    {
        if *name == String::from_str("hex") {
            OutputFormat::Hex
        } else if *name == String::from_str("binary") {
            OutputFormat::Binary
        } else if *name == String::from_str("human") {
            OutputFormat::Human
        } else {
            OutputFormat::Json
        }
    }
}

impl<'a> From<&'a str> for OutputFormat {
    /// Selects a format by name, ignoring case; unknown names select JSON.
    fn from(s: &'a str) -> (r: OutputFormat) {
        OutputFormat::from_lowercase_name(&to_lowercase(s))
    }
}

impl<'a> vstd::std_specs::convert::FromSpecImpl<&'a str> for OutputFormat {
    open spec fn obeys_from_spec() -> bool {
        true
    }

    open spec fn from_spec(s: &'a str) -> OutputFormat {
        format_named(lowercase_of(s@))
    }
}

} // verus!
