use vstd::prelude::*;
use crate::text::str_eq;

verus! {

/// Which window manager a run of the system starts.
#[derive(Debug, Clone, Copy, PartialEq, Eq, Structural)]
pub enum WMType {
    Native,
    Headless,
}

impl WMType {
    /// Reads the kind of window manager from its name: `native` or
    /// `headless`; any other name is refused with a message.
    pub fn from_str(s: &str) -> (r: Result<WMType, &'static str>)
        ensures
            s@ == "native"@ ==> r == Ok::<WMType, &'static str>(WMType::Native),
            s@ == "headless"@ ==> r == Ok::<WMType, &'static str>(WMType::Headless),
            s@ != "native"@ && s@ != "headless"@ ==> (r matches Err(e) && e@ == "Could not parse a day"@),
    {
        proof {
            reveal_strlit("native");
            reveal_strlit("headless");
            assert("headless"@[0] != "native"@[0]);
        }
        if str_eq(s, "native") {
            Ok(WMType::Native)
        } else if str_eq(s, "headless") {
            Ok(WMType::Headless)
        } else {
            Err("Could not parse a day")
        }
    }
}

} // verus!
