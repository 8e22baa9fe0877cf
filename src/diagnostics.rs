//! The text logged when a routing script fails to compile or throws.
use crate::script::decimal;
use crate::script::decimal_string;
use vstd::prelude::*;

verus! {

/// Where the sandbox located an exception.
pub struct ExceptionMessage {
    /// The script's resource name, when the sandbox knows it.
    pub resource_name: Option<String>,
    pub line_number: u64,
    /// The offending line of source, when the sandbox has it.
    pub source_line: Option<String>,
    pub start_column: u64,
    pub end_column: u64,
}

pub open spec fn text_of(s: Option<String>) -> Option<Seq<char>> {
    match s {
        Some(t) => Some(t@),
        None => None,
    }
}

/// `n` copies of `c`.
pub open spec fn repeat(c: char, n: nat) -> Seq<char> {
    Seq::new(n, |i: int| c)
}

/// The report for an exception: without a location, the exception text
/// alone; with one, `name:line: exception`, then, when the source line is
/// known, that line, an underline of carets under the offending columns, and
/// the stack trace if there is one. Each line ends with a newline.
pub open spec fn report_text(
    exception: Seq<char>,
    message: Option<ExceptionMessage>,
    stack: Option<Seq<char>>,
) -> Seq<char> {
    match message {
        None => exception + "\n"@,
        Some(m) => {
            let name = match m.resource_name {
                Some(n) => n@,
                None => "(unknown)"@,
            };
            let header = name + ":"@ + decimal(m.line_number as nat) + ": "@ + exception + "\n"@;
            match m.source_line {
                None => header,
                Some(src) => {
                    let carets = if m.end_column >= m.start_column {
                        (m.end_column - m.start_column) as nat
                    } else {
                        0nat
                    };
                    let body = header + src@ + "\n"@ + repeat(' ', m.start_column as nat) + repeat(
                        '^',
                        carets,
                    ) + "\n"@;
                    match stack {
                        Some(st) => body + st + "\n"@,
                        None => body,
                    }
                },
            }
        },
    }
}

fn append_repeated(out: &mut String, unit: &str, c: Ghost<char>, n: u64)
    requires
        unit@ == seq![c@],
    ensures
        final(out)@ == old(out)@ + repeat(c@, n as nat),
{
    let ghost start = out@;
    let mut i: u64 = 0;
    while i < n
        invariant
            i <= n,
            unit@ == seq![c@],
            out@ == start + repeat(c@, i as nat),
        decreases n - i,
    {
        out.append(unit);
        i += 1;
        proof {
            assert(out@ =~= start + repeat(c@, i as nat));
        }
    }
}

/// Writes the report for an exception the sandbox raised.
pub fn report_exceptions(
    exception: &str,
    message: Option<ExceptionMessage>,
    stack_trace: Option<String>,
) -> (r: String)
    ensures
        r@ == report_text(exception@, message, text_of(stack_trace)),
{
    proof {
        reveal_strlit(" ");
        reveal_strlit("^");
        assert(" "@ =~= seq![' ']);
        assert("^"@ =~= seq!['^']);
    }
    match message {
        None => {
            let mut out = String::from_str(exception);
            out.append("\n");
            out
        },
        Some(m) => {
            let mut out = match &m.resource_name {
                Some(n) => n.clone(),
                None => String::from_str("(unknown)"),
            };
            out.append(":");
            let line = decimal_string(m.line_number);
            out.append(line.as_str());
            out.append(": ");
            out.append(exception);
            out.append("\n");
            match &m.source_line {
                None => out,
                Some(src) => {
                    out.append(src.as_str());
                    out.append("\n");
                    append_repeated(&mut out, " ", Ghost(' '), m.start_column);
                    let carets: u64 = if m.end_column >= m.start_column {
                        m.end_column - m.start_column
                    } else {
                        0
                    };
                    append_repeated(&mut out, "^", Ghost('^'), carets);
                    out.append("\n");
                    match stack_trace {
                        Some(st) => {
                            out.append(st.as_str());
                            out.append("\n");
                            out
                        },
                        None => out,
                    }
                },
            }
        },
    }
}

} // verus!
