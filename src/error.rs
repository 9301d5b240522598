use vstd::prelude::*;

verus! {

/// The grammar rule that a parser stands for.
#[derive(Debug, Clone, Copy, PartialEq, Eq, Structural)]
pub enum Rule {
    Wsp,
    NonUsAscii,
    SafeChar,
    QsafeChar,
    ValueChar,
    TsafeChar,
    BChar,
    VendorId,
    IanaToken,
    XName,
    Name,
    ParamName,
    EscapedChar,
    QuotedString,
    Param,
    LineEnding,
    ContentLine,
    BEnd,
    Binary,
    Boolean,
    DateFullyear,
    DateMonth,
    DateMday,
    DateValue,
    CalAddress,
    Prodid,
}

/// A failed parse: the rule that did not match, and the input it was given,
/// unchanged.
#[derive(Debug, Clone, Copy, PartialEq, Eq)]
pub struct ParseError<'a> {
    pub input: &'a str,
    pub rule: Rule,
}

impl<'a> ParseError<'a> {
    /// This error reports that `rule` did not match at the start of `input`.
    pub open spec fn reports(self, input: Seq<char>, rule: Rule) -> bool {
        self.input@ == input && self.rule == rule
    }
}

} // verus!
