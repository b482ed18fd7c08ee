//! The two analysis modes and their names.
use vstd::prelude::*;

verus! {

/// How the analyzer looks at a target.
#[derive(Clone, Copy, PartialEq, Eq, Structural, Debug)]
pub enum WebMode {
    Static,
    Fuzzing,
}

/// The name of a mode, as requests and reports spell it.
pub open spec fn mode_name(mode: WebMode) -> Seq<char> {
    match mode {
        WebMode::Static => "static"@,
        WebMode::Fuzzing => "fuzzing"@,
    }
}

/// The command-line flag that selects a mode.
pub open spec fn mode_flag(mode: WebMode) -> Seq<char> {
    match mode {
        WebMode::Static => "--static"@,
        WebMode::Fuzzing => "--fuzzing"@,
    }
}

/// The mode whose name is `raw`, if any.
pub open spec fn parse_mode(raw: Seq<char>) -> Option<WebMode> {
    if raw == mode_name(WebMode::Static) {
        Some(WebMode::Static)
    } else if raw == mode_name(WebMode::Fuzzing) {
        Some(WebMode::Fuzzing)
    } else {
        None
    }
}

impl WebMode {
    /// The mode named `raw`, if any: the inverse of `as_str`.
    pub fn parse(raw: &str) -> (res: Option<WebMode>)
        ensures
            res == parse_mode(raw@),
    {
        let v = crate::text::chars_of(raw);
        let s = crate::text::chars_of("static");
        let f = crate::text::chars_of("fuzzing");
        if crate::text::chars_equal(v.as_slice(), s.as_slice()) {
            Some(WebMode::Static)
        } else if crate::text::chars_equal(v.as_slice(), f.as_slice()) {
            Some(WebMode::Fuzzing)
        } else {
            None
        }
    }

    /// The mode's name.
    pub fn as_str(self) -> (res: &'static str)
        ensures
            res@ == mode_name(self),
    {
        match self {
            WebMode::Static => "static",
            WebMode::Fuzzing => "fuzzing",
        }
    }

    /// The analyzer flag for the mode.
    pub fn flag(self) -> (res: &'static str)
        ensures
            res@ == mode_flag(self),
    {
        match self {
            WebMode::Static => "--static",
            WebMode::Fuzzing => "--fuzzing",
        }
    }
}

/// The two names differ, and the two flags differ.
pub proof fn lemma_mode_names_distinct()
    ensures
        mode_name(WebMode::Static) != mode_name(WebMode::Fuzzing),
        mode_flag(WebMode::Static) != mode_flag(WebMode::Fuzzing),
{
    reveal_strlit("static");
    reveal_strlit("fuzzing");
    reveal_strlit("--static");
    reveal_strlit("--fuzzing");
    assert("static"@.len() != "fuzzing"@.len());
    assert("--static"@.len() != "--fuzzing"@.len());
}

/// Parsing a mode's name gives the mode back.
pub proof fn lemma_parse_as_str(mode: WebMode)
    ensures
        parse_mode(mode_name(mode)) == Some(mode),
{
    lemma_mode_names_distinct();
}

} // verus!
