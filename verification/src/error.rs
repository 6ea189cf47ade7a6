//! The application-wide error type and its JSON wire form.
//!
//! Callers across the UI boundary receive errors as JSON strings of the
//! shape `{"code":"...","details":{"reason":"..."}}`; the escaping of the
//! embedded reason follows the JSON string rules (quote, backslash and
//! control characters escaped, everything else passed through).

use crate::text::push_char;
use vstd::prelude::*;
use vstd::string::*;

verus! {

/// Result type handed across the UI boundary: errors travel as JSON strings.
pub type CmdResult<T> = Result<T, String>;

/// The application-wide error taxonomy.
#[derive(Debug, Clone)]
pub enum CommanderError {
    DbError { reason: String },
    FileNotFound { path: String },
    ParseError { reason: String },
    GitError { reason: String },
    IoError { reason: String },
    InternalError { reason: String },
}

// ─── JSON string escaping ────────────────────────────────────────────────────

/// A lowercase hexadecimal digit character.
pub open spec fn hex_lower_char(n: int) -> char {
    if n < 10 {
        ((48 + n) as u8) as char
    } else {
        ((87 + n) as u8) as char
    }
}

/// The JSON escape of one character: `"` and `\` are backslash-escaped, the
/// named control characters use their short forms, other control characters
/// use `\u00..`, and everything else stands for itself.
pub open spec fn esc_char(c: char) -> Seq<char> {
    if c == '"' {
        seq!['\\', '"']
    } else if c == '\\' {
        seq!['\\', '\\']
    } else if c == '\u{08}' {
        seq!['\\', 'b']
    } else if c == '\u{0C}' {
        seq!['\\', 'f']
    } else if c == '\n' {
        seq!['\\', 'n']
    } else if c == '\r' {
        seq!['\\', 'r']
    } else if c == '\t' {
        seq!['\\', 't']
    } else if (c as u32) < 32 {
        seq!['\\', 'u', '0', '0', hex_lower_char((c as u32) as int / 16), hex_lower_char(
            (c as u32) as int % 16,
        )]
    } else {
        seq![c]
    }
}

/// A character sequence with every character JSON-escaped.
pub open spec fn json_escaped(s: Seq<char>) -> Seq<char>
    decreases s.len(),
{
    if s.len() == 0 {
        Seq::empty()
    } else {
        json_escaped(s.drop_last()) + esc_char(s.last())
    }
}

fn hex_lower_digit(n: u32) -> (c: char)
    requires
        n < 16,
    ensures
        c == hex_lower_char(n as int),
{
    if n < 10 {
        ((48 + n) as u8) as char
    } else {
        ((87 + n) as u8) as char
    }
}

/// Escapes a string for embedding in a JSON string literal.
pub fn json_escape(s: &str) -> (r: String)
    ensures
        r@ == json_escaped(s@),
{
    let n = s.unicode_len();
    let mut r = String::new();
    let mut i: usize = 0;
    while i < n
        invariant
            n == s@.len(),
            i <= n,
            r@ == json_escaped(s@.take(i as int)),
        decreases n - i,
    {
        proof {
            assert(s@.take(i + 1).drop_last() =~= s@.take(i as int));
            assert(s@.take(i + 1).last() == s@[i as int]);
        }
        let c = s.get_char(i);
        let u = c as u32;
        if c == '"' {
            push_char(&mut r, '\\');
            push_char(&mut r, '"');
        } else if c == '\\' {
            push_char(&mut r, '\\');
            push_char(&mut r, '\\');
        } else if u == 8 {
            push_char(&mut r, '\\');
            push_char(&mut r, 'b');
        } else if u == 12 {
            push_char(&mut r, '\\');
            push_char(&mut r, 'f');
        } else if c == '\n' {
            push_char(&mut r, '\\');
            push_char(&mut r, 'n');
        } else if c == '\r' {
            push_char(&mut r, '\\');
            push_char(&mut r, 'r');
        } else if c == '\t' {
            push_char(&mut r, '\\');
            push_char(&mut r, 't');
        } else if u < 32 {
            push_char(&mut r, '\\');
            push_char(&mut r, 'u');
            push_char(&mut r, '0');
            push_char(&mut r, '0');
            push_char(&mut r, hex_lower_digit(u / 16));
            push_char(&mut r, hex_lower_digit(u % 16));
        } else {
            push_char(&mut r, c);
        }
        proof {
            assert(r@ =~= json_escaped(s@.take(i + 1)));
        }
        i = i + 1;
    }
    proof {
        assert(s@.take(n as int) =~= s@);
    }
    r
}

// ─── The JSON wire form ──────────────────────────────────────────────────────

/// The error's wire code.
pub open spec fn error_code(e: CommanderError) -> Seq<char> {
    match e {
        CommanderError::DbError { .. } => "DB_ERROR"@,
        CommanderError::FileNotFound { .. } => "FILE_NOT_FOUND"@,
        CommanderError::ParseError { .. } => "PARSE_ERROR"@,
        CommanderError::GitError { .. } => "GIT_ERROR"@,
        CommanderError::IoError { .. } => "IO_ERROR"@,
        CommanderError::InternalError { .. } => "INTERNAL_ERROR"@,
    }
}

/// The name of the error's single detail field.
pub open spec fn error_field(e: CommanderError) -> Seq<char> {
    match e {
        CommanderError::FileNotFound { .. } => "path"@,
        _ => "reason"@,
    }
}

/// The error's detail text.
pub open spec fn error_detail(e: CommanderError) -> Seq<char> {
    match e {
        CommanderError::DbError { reason } => reason@,
        CommanderError::FileNotFound { path } => path@,
        CommanderError::ParseError { reason } => reason@,
        CommanderError::GitError { reason } => reason@,
        CommanderError::IoError { reason } => reason@,
        CommanderError::InternalError { reason } => reason@,
    }
}

/// The full JSON wire form of an error.
pub open spec fn error_json(e: CommanderError) -> Seq<char> {
    "{\"code\":\""@ + error_code(e) + "\",\"details\":{\""@ + error_field(e) + "\":\""@
        + json_escaped(error_detail(e)) + "\"}}"@
}

impl CommanderError {
    /// Renders the error in its JSON wire form.
    pub fn to_json(&self) -> (r: String)
        ensures
            r@ == error_json(*self),
    {
        let mut r = String::from_str("{\"code\":\"");
        match self {
            CommanderError::DbError { .. } => r.append("DB_ERROR"),
            CommanderError::FileNotFound { .. } => r.append("FILE_NOT_FOUND"),
            CommanderError::ParseError { .. } => r.append("PARSE_ERROR"),
            CommanderError::GitError { .. } => r.append("GIT_ERROR"),
            CommanderError::IoError { .. } => r.append("IO_ERROR"),
            CommanderError::InternalError { .. } => r.append("INTERNAL_ERROR"),
        }
        r.append("\",\"details\":{\"");
        match self {
            CommanderError::FileNotFound { .. } => r.append("path"),
            _ => r.append("reason"),
        }
        r.append("\":\"");
        let detail: &String = match self {
            CommanderError::DbError { reason } => reason,
            CommanderError::FileNotFound { path } => path,
            CommanderError::ParseError { reason } => reason,
            CommanderError::GitError { reason } => reason,
            CommanderError::IoError { reason } => reason,
            CommanderError::InternalError { reason } => reason,
        };
        let escaped = json_escape(detail.as_str());
        r.append(escaped.as_str());
        r.append("\"}}");
        proof {
            assert(r@ =~= error_json(*self));
        }
        r
    }

    /// A database error with the given description.
    pub fn db(reason: String) -> (r: Self)
        ensures
            r == (CommanderError::DbError { reason }),
    {
        CommanderError::DbError { reason }
    }

    /// An I/O error with the given description.
    pub fn io(reason: String) -> (r: Self)
        ensures
            r == (CommanderError::IoError { reason }),
    {
        CommanderError::IoError { reason }
    }

    /// A parse error with the given description.
    pub fn parse(reason: String) -> (r: Self)
        ensures
            r == (CommanderError::ParseError { reason }),
    {
        CommanderError::ParseError { reason }
    }

    /// A version-control error with the given description.
    pub fn git(reason: String) -> (r: Self)
        ensures
            r == (CommanderError::GitError { reason }),
    {
        CommanderError::GitError { reason }
    }

    /// An internal error with the given description.
    pub fn internal(reason: String) -> (r: Self)
        ensures
            r == (CommanderError::InternalError { reason }),
    {
        CommanderError::InternalError { reason }
    }
}

/// Renders an error into the JSON string form the UI boundary expects.
pub fn to_cmd_err(e: CommanderError) -> (r: String)
    ensures
        r@ == error_json(e),
{
    e.to_json()
}

} // verus!
