//! Launching the assistant in an external terminal: which terminal
//! application to use, POSIX shell quoting, percent-encoding, and the exact
//! launch texts (the `warp` URL and the helper script). Probing the
//! filesystem for installed terminals and spawning `open` are the host's
//! work; it passes in what it found.

use crate::text::push_char;
use vstd::prelude::*;
use vstd::string::*;
use vstd::utf8::encode_utf8;

verus! {

/// Which terminal applications are installed and which one is preferred.
pub struct TerminalInfo {
    pub detected: String,
    pub available: Vec<String>,
}

/// Reports the installed terminal applications, preferring `warp`, then
/// `iterm2`; the stock terminal is always available and always last.
pub fn detect_terminal(warp_installed: bool, iterm_installed: bool) -> (r: TerminalInfo)
    ensures
        r.available@.len() == 1 + (if warp_installed {
            1int
        } else {
            0int
        }) + (if iterm_installed {
            1int
        } else {
            0int
        }),
        warp_installed ==> r.available@[0]@ == "warp"@,
        !warp_installed && iterm_installed ==> r.available@[0]@ == "iterm2"@,
        warp_installed && iterm_installed ==> r.available@[1]@ == "iterm2"@,
        r.available@.last()@ == "terminal"@,
        r.detected@ == r.available@[0]@,
{
    let mut available: Vec<String> = Vec::new();
    if warp_installed {
        available.push(String::from_str("warp"));
    }
    if iterm_installed {
        available.push(String::from_str("iterm2"));
    }
    available.push(String::from_str("terminal"));
    let detected = available[0].clone();
    TerminalInfo { detected, available }
}

/// The path of the assistant binary to launch: the search-path lookup if it
/// found one, else the first existing well-known install location, else the
/// bare binary name for the shell to resolve.
pub open spec fn assistant_bin_spec(
    which_assistant: Option<Seq<char>>,
    usr_local: bool,
    brew: bool,
    usr_bin: bool,
) -> Seq<char> {
    match which_assistant {
        Option::Some(p) => p,
        Option::None => if usr_local {
            "/usr/local/bin/assistant"@
        } else if brew {
            "/opt/homebrew/bin/assistant"@
        } else if usr_bin {
            "/usr/bin/assistant"@
        } else {
            "assistant"@
        },
    }
}

/// Resolves the assistant binary to launch from what the host found on the
/// search path and at the well-known install locations.
pub fn resolve_assistant_bin(
    which_assistant: Option<String>,
    usr_local: bool,
    brew: bool,
    usr_bin: bool,
) -> (r: String)
    ensures
        r@ == assistant_bin_spec(crate::text::opt_str_view(which_assistant), usr_local, brew, usr_bin),
{
    match which_assistant {
        Some(p) => p,
        None => {
            if usr_local {
                String::from_str("/usr/local/bin/assistant")
            } else if brew {
                String::from_str("/opt/homebrew/bin/assistant")
            } else if usr_bin {
                String::from_str("/usr/bin/assistant")
            } else {
                String::from_str("assistant")
            }
        },
    }
}

// ─── POSIX shell quoting ─────────────────────────────────────────────────────

/// The quoted form of one character inside a single-quoted shell string:
/// a single quote closes the string, emits an escaped quote, and reopens it;
/// everything else stands for itself.
pub open spec fn shell_quoted_char(c: char) -> Seq<char> {
    if c == '\'' {
        seq!['\'', '\\', '\'', '\'']
    } else {
        seq![c]
    }
}

pub open spec fn shell_quoted_body(s: Seq<char>) -> Seq<char>
    decreases s.len(),
{
    if s.len() == 0 {
        Seq::empty()
    } else {
        shell_quoted_body(s.drop_last()) + shell_quoted_char(s.last())
    }
}

/// A string single-quoted for a POSIX shell.
pub open spec fn shell_quoted(s: Seq<char>) -> Seq<char> {
    seq!['\''] + shell_quoted_body(s) + seq!['\'']
}

/// Single-quotes a string for use in a POSIX shell command.
pub fn shell_quote(s: &str) -> (r: String)
    ensures
        r@ == shell_quoted(s@),
{
    let n = s.unicode_len();
    let mut r = String::new();
    push_char(&mut r, '\'');
    let mut i: usize = 0;
    while i < n
        invariant
            n == s@.len(),
            i <= n,
            r@ == seq!['\''] + shell_quoted_body(s@.take(i as int)),
        decreases n - i,
    {
        proof {
            assert(s@.take(i + 1).drop_last() =~= s@.take(i as int));
            assert(s@.take(i + 1).last() == s@[i as int]);
        }
        let c = s.get_char(i);
        if c == '\'' {
            push_char(&mut r, '\'');
            push_char(&mut r, '\\');
            push_char(&mut r, '\'');
            push_char(&mut r, '\'');
        } else {
            push_char(&mut r, c);
        }
        proof {
            assert(r@ =~= seq!['\''] + shell_quoted_body(s@.take(i + 1)));
        }
        i = i + 1;
    }
    push_char(&mut r, '\'');
    proof {
        assert(s@.take(n as int) =~= s@);
        assert(r@ =~= shell_quoted(s@));
    }
    r
}

// ─── Percent-encoding ────────────────────────────────────────────────────────

/// An uppercase hexadecimal digit character.
pub open spec fn hex_upper_char(n: int) -> char {
    if n < 10 {
        ((48 + n) as u8) as char
    } else {
        ((55 + n) as u8) as char
    }
}

/// A byte that passes through percent-encoding unchanged: ASCII letters and
/// digits and `-`, `_`, `.`, `~`.
pub open spec fn url_safe_byte(b: u8) -> bool {
    (48 <= b <= 57) || (65 <= b <= 90) || (97 <= b <= 122) || b == 45 || b == 95 || b == 46 || b
        == 126
}

/// The percent-encoding of one byte.
pub open spec fn url_encoded_byte(b: u8) -> Seq<char> {
    if url_safe_byte(b) {
        seq![b as char]
    } else {
        seq!['%', hex_upper_char((b >> 4) as int), hex_upper_char((b & 15) as int)]
    }
}

/// The percent-encoding of a byte sequence.
pub open spec fn url_encoded(bytes: Seq<u8>) -> Seq<char>
    decreases bytes.len(),
{
    if bytes.len() == 0 {
        Seq::empty()
    } else {
        url_encoded(bytes.drop_last()) + url_encoded_byte(bytes.last())
    }
}

fn hex_upper_digit(n: u8) -> (c: char)
    requires
        n < 16,
    ensures
        c == hex_upper_char(n as int),
{
    if n < 10 {
        (48 + n) as char
    } else {
        (55 + n) as char
    }
}

/// Percent-encodes a string's UTF-8 bytes: ASCII letters, digits and
/// `-`, `_`, `.`, `~` pass through, every other byte becomes `%XX`.
pub fn urlencoding_simple(s: &str) -> (r: String)
    ensures
        r@ == url_encoded(encode_utf8(s@)),
{
    let bytes = s.as_bytes_vec();
    let n = bytes.len();
    let ghost bv = bytes@;
    let mut r = String::new();
    let mut i: usize = 0;
    while i < n
        invariant
            n == bv.len(),
            bv == bytes@,
            bv == encode_utf8(s@),
            i <= n,
            r@ == url_encoded(bv.take(i as int)),
        decreases n - i,
    {
        proof {
            assert(bv.take(i + 1).drop_last() =~= bv.take(i as int));
            assert(bv.take(i + 1).last() == bv[i as int]);
        }
        let b = bytes[i];
        if (48 <= b && b <= 57) || (65 <= b && b <= 90) || (97 <= b && b <= 122) || b == 45 || b
            == 95 || b == 46 || b == 126 {
            push_char(&mut r, b as char);
        } else {
            proof {
                assert(b >> 4 < 16 && b & 15 < 16) by (bit_vector);
            }
            push_char(&mut r, '%');
            push_char(&mut r, hex_upper_digit(b >> 4));
            push_char(&mut r, hex_upper_digit(b & 15));
        }
        proof {
            assert(r@ =~= url_encoded(bv.take(i + 1)));
        }
        i = i + 1;
    }
    proof {
        assert(bv.take(n as int) =~= bv);
    }
    r
}

// ─── Launch texts ────────────────────────────────────────────────────────────

/// The shell command a launch runs: change into the project and start the
/// assistant, both paths quoted.
pub open spec fn launch_command(project_path: Seq<char>, assistant_bin: Seq<char>) -> Seq<char> {
    "cd "@ + shell_quoted(project_path) + " && "@ + shell_quoted(assistant_bin)
}

/// Builds the launch command `cd <project> && <assistant>` with both paths
/// shell-quoted.
pub fn build_launch_command(project_path: &str, assistant_bin: &str) -> (r: String)
    ensures
        r@ == launch_command(project_path@, assistant_bin@),
{
    let mut r = String::from_str("cd ");
    let qp = shell_quote(project_path);
    r.append(qp.as_str());
    r.append(" && ");
    let qb = shell_quote(assistant_bin);
    r.append(qb.as_str());
    proof {
        assert(r@ =~= launch_command(project_path@, assistant_bin@));
    }
    r
}

/// The URL that asks the `warp` terminal to open a new tab running the
/// launch command.
pub fn warp_launch_url(command: &str) -> (r: String)
    ensures
        r@ == "warp://action/new_tab?command="@ + url_encoded(encode_utf8(command@)),
{
    let mut r = String::from_str("warp://action/new_tab?command=");
    let enc = urlencoding_simple(command);
    r.append(enc.as_str());
    r
}

/// The helper script a non-`warp` launch writes and opens: it extends the
/// search path with the common install directories, changes into the
/// project, and starts the assistant.
pub fn launch_script(project_path: &str, assistant_bin: &str) -> (r: String)
    ensures
        r@ == "#!/bin/bash\nexport PATH=\"$PATH:/usr/local/bin:/opt/homebrew/bin\"\ncd "@
            + shell_quoted(project_path@) + "\n"@ + shell_quoted(assistant_bin@) + "\n"@,
{
    let mut r = String::from_str(
        "#!/bin/bash\nexport PATH=\"$PATH:/usr/local/bin:/opt/homebrew/bin\"\ncd ",
    );
    let qp = shell_quote(project_path);
    r.append(qp.as_str());
    r.append("\n");
    let qb = shell_quote(assistant_bin);
    r.append(qb.as_str());
    r.append("\n");
    proof {
        assert(r@ =~= "#!/bin/bash\nexport PATH=\"$PATH:/usr/local/bin:/opt/homebrew/bin\"\ncd "@
            + shell_quoted(project_path@) + "\n"@ + shell_quoted(assistant_bin@) + "\n"@);
    }
    r
}

} // verus!
