//! Reports: a list of messages under a heading.

use vstd::prelude::*;
use vstd::string::StringExecFns;

verus! {

/// How grave a report is.
#[derive(Debug, Clone, Copy, PartialEq, Eq, Structural)]
pub enum Type {
    Warning,
    Error,
}

/// A report: its messages, the heading first.
#[derive(Debug, Clone, PartialEq, Eq)]
pub struct FireError {
    pub messages: Vec<String>,
}

/// The heading of a report.
pub open spec fn heading(ty: Type) -> Seq<char> {
    match ty {
        Type::Error => "Error"@,
        Type::Warning => "Warning"@,
    }
}

/// The lines of a report as one text: each message, then a line feed.
pub open spec fn report_text(messages: Seq<String>) -> Seq<char>
    decreases messages.len(),
{
    if messages.len() == 0 {
        Seq::empty()
    } else {
        report_text(messages.drop_last()) + messages.last()@ + seq!['\n']
    }
}

impl FireError {
    /// A report that holds its heading alone.
    pub fn new(ty: Type) -> (e: FireError)
        ensures
            e.messages@.len() == 1,
            e.messages@[0]@ == heading(ty),
    {
        let message = match ty {
            Type::Error => "Error".to_owned(),
            Type::Warning => "Warning".to_owned(),
        };
        let mut messages: Vec<String> = Vec::new();
        messages.push(message);
        FireError { messages }
    }

    /// The report as text: each message on a line of its own.
    pub fn to_string(&self) -> (s: String)
        ensures
            s@ == report_text(self.messages@),
    {
        let mut out = String::new();
        let mut i: usize = 0;
        while i < self.messages.len()
            invariant
                i <= self.messages@.len(),
                out@ == report_text(self.messages@.take(i as int)),
            decreases self.messages.len() - i,
        {
            proof {
                assert(self.messages@.take(i + 1).drop_last() =~= self.messages@.take(i as int));
            }
            out.append(self.messages[i].as_str());
            out.append("\n");
            proof {
                reveal_strlit("\n");
                assert("\n"@ =~= seq!['\n']);
            }
            i += 1;
        }
        proof {
            assert(self.messages@.take(self.messages@.len() as int) =~= self.messages@);
        }
        out
    }
}

} // verus!
