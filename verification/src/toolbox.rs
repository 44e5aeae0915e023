//! The texts of the system tools (list a directory, read and write files, run
//! a shell command) and of the example tools. Touching the file system and
//! running processes is the caller's part; these functions make the answers.

use vstd::prelude::*;
use vstd::string::StringSliceAdditionalSpecFns;
use crate::text::{
    decimal, decode_lossy, join, join_strings, signed_decimal, sort_strings, sorted_strings,
    u64_to_decimal, i64_to_decimal, utf8_lossy, views,
};

verus! {

broadcast use vstd::string::group_string_axioms;

/// The line of a directory listing for an entry.
pub open spec fn entry_line(is_dir: bool, name: Seq<char>) -> Seq<char> {
    (if is_dir {
        "dir "@
    } else {
        "file"@
    }) + "  "@ + name
}

/// A directory listing: the given lines in order, or `(vazio)` when there are none.
pub open spec fn listing_text(lines: Seq<Seq<char>>) -> Seq<char> {
    if lines.len() == 0 {
        "(vazio)"@
    } else {
        join(lines, "\n"@)
    }
}

/// The line of a directory listing for an entry (`dir ` or `file`, two spaces,
/// the name).
pub fn entry(is_dir: bool, name: &str) -> (r: String)
    ensures
        r@ == entry_line(is_dir, name@),
{
    let mut r = if is_dir {
        "dir ".to_string()
    } else {
        "file".to_string()
    };
    r.append("  ");
    r.append(name);
    r
}

/// The listing of a directory whose entries gave `lines`: sorted, one per
/// line, or `(vazio)` for an empty directory.
pub fn listing(lines: Vec<String>) -> (r: String)
    ensures
        exists|sorted: Seq<Seq<char>>|
            {
                &&& sorted_strings(sorted)
                &&& sorted.to_multiset() == views(lines@).to_multiset()
                &&& r@ == listing_text(sorted)
            },
{
    broadcast use vstd::seq_lib::group_to_multiset_ensures;

    let sorted = sort_strings(lines);
    let ghost sv = views(sorted@);
    if sorted.len() == 0 {
        assert(sv.len() == 0);
        "(vazio)".to_string()
    } else {
        assert(sv.len() > 0);
        join_strings(sorted.as_slice(), "\n")
    }
}

/// The report of a file write of `content` to `path`.
pub open spec fn written_text(content_bytes: nat, path: Seq<char>) -> Seq<char> {
    "escrito ("@ + decimal(content_bytes) + " bytes) em "@ + path
}

/// The report of writing `content` to `path` (its size in UTF-8 bytes).
pub fn written(content: &str, path: &str) -> (r: String)
    ensures
        r@ == written_text((content.spec_bytes().len() as usize) as nat, path@),
{
    let mut r = "escrito (".to_string();
    let d = u64_to_decimal(content.len() as u64);
    r.append(d.as_str());
    r.append(" bytes) em ");
    r.append(path);
    r
}

/// The exit line of a shell report: `[exit <code>]`, -1 for a command killed by
/// a signal.
pub open spec fn exit_line(code: Option<i32>) -> Seq<char> {
    "\n[exit "@ + signed_decimal(
        match code {
            Some(c) => c as int,
            None => -1,
        },
    ) + "]"@
}

/// The report of a shell command: its output, its error output under a
/// `[stderr]` heading when there is any, and its exit code (-1 when it was
/// killed by a signal).
pub open spec fn shell_text(stdout: Seq<u8>, stderr: Seq<u8>, code: Option<i32>) -> Seq<char> {
    utf8_lossy(stdout) + (if stderr.len() > 0 {
        "\n[stderr]\n"@ + utf8_lossy(stderr)
    } else {
        Seq::empty()
    }) + exit_line(code)
}

/// The report of a shell command that wrote `stdout` and `stderr` and ended
/// with `code`.
pub fn shell_report(stdout: &[u8], stderr: &[u8], code: Option<i32>) -> (r: String)
    ensures
        r@ == shell_text(stdout@, stderr@, code),
{
    let mut r = decode_lossy(stdout);
    let ghost out = r@;
    if stderr.len() > 0 {
        r.append("\n[stderr]\n");
        let e = decode_lossy(stderr);
        r.append(e.as_str());
    } else {
        assert(out + Seq::<char>::empty() =~= out);
    }
    r.append("\n[exit ");
    let c: i64 = match code {
        Some(c) => c as i64,
        None => -1,
    };
    let d = i64_to_decimal(c);
    r.append(d.as_str());
    r.append("]");
    r
}

/// The error for a missing argument of a tool.
pub fn missing_argument(name: &str) -> (r: String)
    ensures
        r@ == "argumento '"@ + name@ + "' ausente"@,
{
    let mut r = "argumento '".to_string();
    r.append(name);
    r.append("' ausente");
    r
}

/// The example weather tool's answer for `city` (`cidade desconhecida` when
/// none was given).
pub fn weather(city: Option<&str>) -> (r: String)
    ensures
        r@ == "Em "@ + match city {
            Some(c) => c@,
            None => "cidade desconhecida"@,
        } + " está 24°C, céu limpo."@,
{
    let c = match city {
        Some(c) => c,
        None => "cidade desconhecida",
    };
    let mut r = "Em ".to_string();
    r.append(c);
    r.append(" está 24°C, céu limpo.");
    r
}

/// A shell report is the output, then, whenever there is error output and
/// whatever the output is, the error output under its `[stderr]` heading, then
/// the exit line; with no error output, the output and the exit line alone.
pub proof fn law_report_keeps_both_outputs(stdout: Seq<u8>, stderr: Seq<u8>, code: Option<i32>)
    ensures
        stderr.len() > 0 ==> shell_text(stdout, stderr, code) == utf8_lossy(stdout)
            + "\n[stderr]\n"@ + utf8_lossy(stderr) + exit_line(code),
        stderr.len() == 0 ==> shell_text(stdout, stderr, code) == utf8_lossy(stdout) + exit_line(
            code,
        ),
{
    assert(utf8_lossy(stdout) + Seq::<char>::empty() =~= utf8_lossy(stdout));
    assert(shell_text(stdout, stderr, code) =~= utf8_lossy(stdout) + (if stderr.len() > 0 {
        "\n[stderr]\n"@ + utf8_lossy(stderr)
    } else {
        Seq::empty()
    }) + exit_line(code));
}

/// Error output only adds to a report: the report with error output is the
/// report without it, with the error output under its heading put in right
/// after the output, before the exit line.
pub proof fn law_error_output_is_inserted(stdout: Seq<u8>, stderr: Seq<u8>, code: Option<i32>)
    requires
        stderr.len() > 0,
    ensures
        ({
            let plain = shell_text(stdout, Seq::empty(), code);
            let at = utf8_lossy(stdout).len() as int;
            shell_text(stdout, stderr, code) == plain.take(at) + "\n[stderr]\n"@ + utf8_lossy(
                stderr,
            ) + plain.skip(at)
        }),
{
    law_report_keeps_both_outputs(stdout, stderr, code);
    law_report_keeps_both_outputs(stdout, Seq::empty(), code);
    let plain = shell_text(stdout, Seq::empty(), code);
    let at = utf8_lossy(stdout).len() as int;
    assert(plain.take(at) =~= utf8_lossy(stdout));
    assert(plain.skip(at) =~= exit_line(code));
    assert(utf8_lossy(stdout) + "\n[stderr]\n"@ + utf8_lossy(stderr) + exit_line(code) =~= plain.take(at)
        + "\n[stderr]\n"@ + utf8_lossy(stderr) + plain.skip(at));
}

} // verus!
