//! Formatting console messages forwarded from the engine.
//!
//! The engine reports a console message with numeric source and level
//! codes, the message text, its source identifier, and a position. The
//! line printed for it is computed here; where the text comes from and
//! where the line goes is the driver's business.

use vstd::prelude::*;

use crate::jsc::json::dec_chars;

verus! {

/// The name of a message level code: one of `log`, `warning`, `error`,
/// `debug` and `info`, or `unknown` for any other code.
pub open spec fn level_name_spec(level: u32) -> Seq<char> {
    if level == 1 {
        seq!['l', 'o', 'g']
    } else if level == 2 {
        seq!['w', 'a', 'r', 'n', 'i', 'n', 'g']
    } else if level == 3 {
        seq!['e', 'r', 'r', 'o', 'r']
    } else if level == 4 {
        seq!['d', 'e', 'b', 'u', 'g']
    } else if level == 5 {
        seq!['i', 'n', 'f', 'o']
    } else {
        seq!['u', 'n', 'k', 'n', 'o', 'w', 'n']
    }
}

/// The name of a message source code, or `unknown` for a code outside the
/// engine's list.
pub open spec fn source_name_spec(source: u32) -> Seq<char> {
    if source == 0 {
        seq!['x', 'm', 'l']
    } else if source == 1 {
        seq!['j', 's']
    } else if source == 2 {
        seq!['n', 'e', 't', 'w', 'o', 'r', 'k']
    } else if source == 3 {
        seq!['c', 'o', 'n', 's', 'o', 'l', 'e', 'a', 'p', 'i']
    } else if source == 4 {
        seq!['s', 't', 'o', 'r', 'a', 'g', 'e']
    } else if source == 5 {
        seq!['a', 'p', 'p', 'c', 'a', 'c', 'h', 'e']
    } else if source == 6 {
        seq!['r', 'e', 'n', 'd', 'e', 'r', 'i', 'n', 'g']
    } else if source == 7 {
        seq!['c', 's', 's']
    } else if source == 8 {
        seq!['s', 'e', 'c', 'u', 'r', 'i', 't', 'y']
    } else if source == 9 {
        seq!['c', 'o', 'n', 't', 'e', 'n', 't', 'b', 'l', 'o', 'c', 'k', 'e', 'r']
    } else if source == 10 {
        seq!['o', 't', 'h', 'e', 'r']
    } else {
        seq!['u', 'n', 'k', 'n', 'o', 'w', 'n']
    }
}

/// The line printed for a console message:
/// `[level] [source] message (source_id:line:column)`.
pub open spec fn log_line_spec(
    level: u32,
    source: u32,
    message: Seq<char>,
    source_id: Seq<char>,
    line_number: u32,
    column_number: u32,
) -> Seq<char> {
    seq!['['] + level_name_spec(level) + seq![']', ' ', '['] + source_name_spec(source) + seq![
        ']',
        ' ',
    ] + message + seq![' ', '('] + source_id + seq![':'] + dec_chars(line_number as nat) + seq![
        ':',
    ] + dec_chars(column_number as nat) + seq![')']
}

/// Renders a message level code.
pub fn level_name(level: u32) -> (r: &'static str)
    ensures
        r@ == level_name_spec(level),
{
    if level == 1 {
        proof {
            reveal_strlit("log");
            assert("log"@ =~= level_name_spec(level));
        }
        "log"
    } else if level == 2 {
        proof {
            reveal_strlit("warning");
            assert("warning"@ =~= level_name_spec(level));
        }
        "warning"
    } else if level == 3 {
        proof {
            reveal_strlit("error");
            assert("error"@ =~= level_name_spec(level));
        }
        "error"
    } else if level == 4 {
        proof {
            reveal_strlit("debug");
            assert("debug"@ =~= level_name_spec(level));
        }
        "debug"
    } else if level == 5 {
        proof {
            reveal_strlit("info");
            assert("info"@ =~= level_name_spec(level));
        }
        "info"
    } else {
        proof {
            reveal_strlit("unknown");
            assert("unknown"@ =~= level_name_spec(level));
        }
        "unknown"
    }
}

/// Renders a message source code.
pub fn source_name(source: u32) -> (r: &'static str)
    ensures
        r@ == source_name_spec(source),
{
    if source == 0 {
        proof {
            reveal_strlit("xml");
            assert("xml"@ =~= source_name_spec(source));
        }
        "xml"
    } else if source == 1 {
        proof {
            reveal_strlit("js");
            assert("js"@ =~= source_name_spec(source));
        }
        "js"
    } else if source == 2 {
        proof {
            reveal_strlit("network");
            assert("network"@ =~= source_name_spec(source));
        }
        "network"
    } else if source == 3 {
        proof {
            reveal_strlit("consoleapi");
            assert("consoleapi"@ =~= source_name_spec(source));
        }
        "consoleapi"
    } else if source == 4 {
        proof {
            reveal_strlit("storage");
            assert("storage"@ =~= source_name_spec(source));
        }
        "storage"
    } else if source == 5 {
        proof {
            reveal_strlit("appcache");
            assert("appcache"@ =~= source_name_spec(source));
        }
        "appcache"
    } else if source == 6 {
        proof {
            reveal_strlit("rendering");
            assert("rendering"@ =~= source_name_spec(source));
        }
        "rendering"
    } else if source == 7 {
        proof {
            reveal_strlit("css");
            assert("css"@ =~= source_name_spec(source));
        }
        "css"
    } else if source == 8 {
        proof {
            reveal_strlit("security");
            assert("security"@ =~= source_name_spec(source));
        }
        "security"
    } else if source == 9 {
        proof {
            reveal_strlit("contentblocker");
            assert("contentblocker"@ =~= source_name_spec(source));
        }
        "contentblocker"
    } else if source == 10 {
        proof {
            reveal_strlit("other");
            assert("other"@ =~= source_name_spec(source));
        }
        "other"
    } else {
        proof {
            reveal_strlit("unknown");
            assert("unknown"@ =~= source_name_spec(source));
        }
        "unknown"
    }
}

/// Formats the line printed for a console message.
pub fn format_log_line(
    level: u32,
    source: u32,
    message: &str,
    source_id: &str,
    line_number: u32,
    column_number: u32,
) -> (r: String)
    ensures
        r@ == log_line_spec(level, source, message@, source_id@, line_number, column_number),
{
    let mut out = String::new();
    crate::jsc::string::push_char(&mut out, '[');
    out.append(level_name(level));
    out.append("] [");
    out.append(source_name(source));
    out.append("] ");
    out.append(message);
    out.append(" (");
    out.append(source_id);
    crate::jsc::string::push_char(&mut out, ':');
    crate::jsc::json::append_decimal(&mut out, line_number as u64);
    crate::jsc::string::push_char(&mut out, ':');
    crate::jsc::json::append_decimal(&mut out, column_number as u64);
    crate::jsc::string::push_char(&mut out, ')');
    proof {
        reveal_strlit("] [");
        reveal_strlit("] ");
        reveal_strlit(" (");
        assert("] ["@ =~= seq![']', ' ', '[']);
        assert("] "@ =~= seq![']', ' ']);
        assert(" ("@ =~= seq![' ', '(']);
        assert(out@ =~= log_line_spec(
            level,
            source,
            message@,
            source_id@,
            line_number,
            column_number,
        ));
    }
    out
}

} // verus!
