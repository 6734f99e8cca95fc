//! Terminal colour codes used in the proxy's messages.

use vstd::prelude::*;

verus! {

/// ANSI escape sequences for coloured terminal output.
#[derive(Clone)]
pub struct BColors {
    pub header: String,
    pub blue: String,
    pub cyan: String,
    pub cyan_green: String,
    pub warning: String,
    pub fail: String,
    pub endc: String,
    pub bold: String,
    pub underline: String,
}

impl BColors {
    /// The standard palette: bright magenta header, bright blue, bright cyan,
    /// bright green, bright yellow warning, bright red failure, reset, bold
    /// and underline.
    pub fn new() -> (r: Self)
        ensures
            r.header@ == "\x1b[95m"@,
            r.blue@ == "\x1b[94m"@,
            r.cyan@ == "\x1b[96m"@,
            r.cyan_green@ == "\x1b[92m"@,
            r.warning@ == "\x1b[93m"@,
            r.fail@ == "\x1b[91m"@,
            r.endc@ == "\x1b[0m"@,
            r.bold@ == "\x1b[1m"@,
            r.underline@ == "\x1b[4m"@,
    {
        BColors {
            header: owned("\x1b[95m"),
            blue: owned("\x1b[94m"),
            cyan: owned("\x1b[96m"),
            cyan_green: owned("\x1b[92m"),
            warning: owned("\x1b[93m"),
            fail: owned("\x1b[91m"),
            endc: owned("\x1b[0m"),
            bold: owned("\x1b[1m"),
            underline: owned("\x1b[4m"),
        }
    }
}

/// An owned copy of `s`.
pub fn owned(s: &str) -> (r: String)
    ensures
        r@ == s@,
{
    s.to_owned()
}

} // verus!
