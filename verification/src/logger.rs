use vstd::prelude::*;

verus! {

/// What `str::to_uppercase` gives for a string: each character replaced by
/// its Unicode upper case mapping.
pub uninterp spec fn uppercase(s: Seq<char>) -> Seq<char>;

/// `str::to_uppercase` from std. Its result depends on the characters of
/// the string alone; the Unicode tables it follows are not written out here.
#[verifier::external_body]
fn to_uppercase(s: &str) -> (r: String)
    ensures
        r@ == uppercase(s@),
{
    s.to_uppercase()
}

/// A logger that prints each record after the upper cased name of the
/// module that wrote it.
#[derive(Clone, Copy, Debug)]
pub struct CoolLogger;

impl CoolLogger {
    /// Every record is printed.
    pub fn enabled(&self) -> (r: bool)
        ensures
            r,
    {
        true
    }

    /// The prefix of a record's line: its module path in upper case, or
    /// `UNKNOWN` when the record has none.
    pub fn prefix(&self, module: Option<&str>) -> (r: String)
        ensures
            match module {
                Some(m) => r@ == uppercase(m@),
                None => r@ == uppercase("unknown"@),
            },
    {
        match module {
            Some(m) => to_uppercase(m),
            None => to_uppercase("unknown"),
        }
    }
}

} // verus!
