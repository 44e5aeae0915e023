//! Where the program looks for the user's configuration, and the `env` file
//! format that holds secrets.
//!
//! The base directory is `$VULCANO_CONFIG_DIR`, else `$XDG_CONFIG_HOME/vulcano`,
//! else `$HOME/.config/vulcano`. Reading the environment and the file system is
//! the caller's part: these functions take what was read.

use vstd::prelude::*;
use crate::text::{
    find_char, find_char_from, from_chars, has_prefix_at, lines, slice_chars, split_once,
    split_once_chars, starts_with, strip_cr, to_chars, trim, trim_chars, trim_matches,
    trim_matches_chars, chars_eq,
};

verus! {

broadcast use vstd::string::group_string_axioms;

/// `comp` appended to the path `base` as a relative component, the way
/// `Path::join` does it on Unix: a `'/'` is put between them unless `base` is
/// empty or already ends with one.
pub open spec fn join_path(base: Seq<char>, comp: Seq<char>) -> Seq<char> {
    if base.len() == 0 {
        comp
    } else if base.last() == '/' {
        base + comp
    } else {
        base + seq!['/'] + comp
    }
}

/// A variable's value when it is set and not empty.
pub open spec fn non_empty(v: Option<Seq<char>>) -> Option<Seq<char>> {
    match v {
        Some(s) => if s.len() > 0 { Some(s) } else { None },
        None => None,
    }
}

/// The configuration directory chosen from the three variables' values.
pub open spec fn config_dir(
    vulcano_config_dir: Option<Seq<char>>,
    xdg_config_home: Option<Seq<char>>,
    home: Option<Seq<char>>,
) -> Seq<char> {
    match non_empty(vulcano_config_dir) {
        Some(d) => d,
        None => {
            let base = match non_empty(xdg_config_home) {
                Some(x) => x,
                None => join_path(
                    match home {
                        Some(h) => h,
                        None => "."@,
                    },
                    ".config"@,
                ),
            };
            join_path(base, "vulcano"@)
        },
    }
}

/// The view of an optional string.
pub open spec fn opt_view(v: Option<String>) -> Option<Seq<char>> {
    match v {
        Some(s) => Some(s@),
        None => None,
    }
}

/// `comp` joined to `base` as a relative path component.
fn join_relative(base: &str, comp: &str) -> (r: String)
    ensures
        r@ == join_path(base@, comp@),
{
    let b = to_chars(base);
    let n = b.len();
    if n == 0 {
        return comp.to_string();
    }
    let mut r = base.to_string();
    if b[n - 1] != '/' {
        r.append("/");
        proof {
            reveal_strlit("/");
        }
    }
    r.append(comp);
    r
}

fn non_empty_string(v: Option<String>) -> (r: Option<String>)
    ensures
        opt_view(r) == non_empty(opt_view(v)),
{
    match v {
        Some(s) => if !s.as_str().is_empty() {
            Some(s)
        } else {
            None
        },
        None => None,
    }
}

/// The configuration directory, given the values of `VULCANO_CONFIG_DIR`,
/// `XDG_CONFIG_HOME` and `HOME` (`None` for an unset variable).
pub fn dir(
    vulcano_config_dir: Option<String>,
    xdg_config_home: Option<String>,
    home: Option<String>,
) -> (r: String)
    ensures
        r@ == config_dir(opt_view(vulcano_config_dir), opt_view(xdg_config_home), opt_view(home)),
{
    match non_empty_string(vulcano_config_dir) {
        Some(d) => d,
        None => {
            let base = match non_empty_string(xdg_config_home) {
                Some(x) => x,
                None => {
                    let h = match home {
                        Some(h) => h,
                        None => ".".to_string(),
                    };
                    join_relative(h.as_str(), ".config")
                },
            };
            join_relative(base.as_str(), "vulcano")
        },
    }
}

/// The skills directory under the configuration directory `dir`.
pub fn skills_dir(dir: &str) -> (r: String)
    ensures
        r@ == join_path(dir@, "skills"@),
{
    join_relative(dir, "skills")
}

/// The MCP servers file under the configuration directory `dir`.
pub fn mcp_path(dir: &str) -> (r: String)
    ensures
        r@ == join_path(dir@, "mcp.json"@),
{
    join_relative(dir, "mcp.json")
}

/// The secrets file under the configuration directory `dir`.
pub fn env_path(dir: &str) -> (r: String)
    ensures
        r@ == join_path(dir@, "env"@),
{
    join_relative(dir, "env")
}


/// What one line of the `env` file gives for `name`: `KEY=value`, where blank
/// lines and lines starting with `#` are skipped, an `export ` before the key
/// is allowed, key and value are trimmed, and double and then single quotes
/// around the value are dropped. An empty value gives nothing.
pub open spec fn env_line_value(line: Seq<char>, name: Seq<char>) -> Option<Seq<char>> {
    let l = trim(line);
    if l.len() == 0 || starts_with(l, "#"@) {
        None
    } else {
        let l2 = if starts_with(l, "export "@) {
            l.skip("export "@.len() as int)
        } else {
            l
        };
        match split_once(l2, '=') {
            None => None,
            Some((k, v)) => if trim(k) != name {
                None
            } else {
                let w = trim_matches(trim_matches(trim(v), '"'), '\'');
                if w.len() > 0 {
                    Some(w)
                } else {
                    None
                }
            },
        }
    }
}

/// The value given by the first line that gives one.
pub open spec fn lookup_lines(ls: Seq<Seq<char>>, name: Seq<char>) -> Option<Seq<char>>
    decreases ls.len(),
{
    if ls.len() == 0 {
        None
    } else {
        match env_line_value(ls[0], name) {
            Some(v) => Some(v),
            None => lookup_lines(ls.drop_first(), name),
        }
    }
}

/// The value of `name` in the contents `raw` of an `env` file.
pub open spec fn env_file_value(raw: Seq<char>, name: Seq<char>) -> Option<Seq<char>> {
    lookup_lines(lines(raw), name)
}

/// The value of `name`: the process environment's when set and not empty,
/// else the `env` file's.
pub open spec fn env_value(
    name: Seq<char>,
    from_env: Option<Seq<char>>,
    file: Option<Seq<char>>,
) -> Option<Seq<char>> {
    match non_empty(from_env) {
        Some(v) => Some(v),
        None => match file {
            Some(raw) => env_file_value(raw, name),
            None => None,
        },
    }
}

fn line_value(line: &[char], name: &[char]) -> (r: Option<Vec<char>>)
    ensures
        match env_line_value(line@, name@) {
            Some(w) => r matches Some(x) && x@ == w,
            None => r is None,
        },
{
    let hash = to_chars("#");
    let export = to_chars("export ");
    let l = trim_chars(line);
    if l.len() == 0 {
        return None;
    }
    assert(l@.subrange(0, l@.len() as int) =~= l@);
    if has_prefix_at(l.as_slice(), 0, hash.as_slice()) {
        return None;
    }
    let l2 = if has_prefix_at(l.as_slice(), 0, export.as_slice()) {
        let n = l.len();
        let x = slice_chars(l.as_slice(), export.len(), n);
        assert(x@ =~= l@.skip(export@.len() as int));
        x
    } else {
        l
    };
    match split_once_chars(l2.as_slice(), '=') {
        None => None,
        Some((k, v)) => {
            let kt = trim_chars(k.as_slice());
            if !chars_eq(kt.as_slice(), name) {
                return None;
            }
            let vt = trim_chars(v.as_slice());
            let w1 = trim_matches_chars(vt.as_slice(), '"');
            let w = trim_matches_chars(w1.as_slice(), '\'');
            if w.len() > 0 {
                Some(w)
            } else {
                None
            }
        },
    }
}

fn strip_cr_chars(v: Vec<char>) -> (r: Vec<char>)
    ensures
        r@ == strip_cr(v@),
{
    let n = v.len();
    if n > 0 && v[n - 1] == '\r' {
        slice_chars(v.as_slice(), 0, n - 1)
    } else {
        v
    }
}

/// The value of `name` in the contents `raw` of an `env` file.
pub fn env_file_lookup(raw: &str, name: &str) -> (r: Option<String>)
    ensures
        opt_view(r) == env_file_value(raw@, name@),
{
    let v = to_chars(raw);
    let nm = to_chars(name);
    let n = v.len();
    let mut pos: usize = 0;
    assert(v@.subrange(0, n as int) =~= v@);
    loop
        invariant
            pos <= n == v@.len(),
            v@ == raw@,
            nm@ == name@,
            lookup_lines(lines(v@), nm@) == lookup_lines(
                lines(v@.subrange(pos as int, n as int)),
                nm@,
            ),
        decreases n - pos,
    {
        let ghost rest = v@.subrange(pos as int, n as int);
        if pos == n {
            return None;
        }
        match find_char_from(v.as_slice(), pos, '\n') {
            Some(i) => {
                proof {
                    crate::text::lemma_find_char(rest, '\n');
                    assert(rest.take(i - pos) =~= v@.subrange(pos as int, i as int));
                    assert(rest.skip(i - pos + 1) =~= v@.subrange(i + 1, n as int));
                    let first = strip_cr(rest.take(i - pos));
                    let tail = lines(rest.skip(i - pos + 1));
                    assert((seq![first] + tail)[0] == first);
                    assert((seq![first] + tail).drop_first() =~= tail);
                }
                let seg = slice_chars(v.as_slice(), pos, i);
                let line = strip_cr_chars(seg);
                match line_value(line.as_slice(), nm.as_slice()) {
                    Some(w) => {
                        return Some(from_chars(w.as_slice()));
                    },
                    None => {},
                }
                pos = i + 1;
            },
            None => {
                proof {
                    let one: Seq<Seq<char>> = seq![rest];
                    assert(one.drop_first() =~= Seq::<Seq<char>>::empty());
                    assert(one[0] == rest);
                    assert(find_char(rest, '\n') is None);
                    assert(lines(rest) == one);
                    assert(lookup_lines(one.drop_first(), nm@) is None);
                }
                let line = slice_chars(v.as_slice(), pos, n);
                return match line_value(line.as_slice(), nm.as_slice()) {
                    Some(w) => Some(from_chars(w.as_slice())),
                    None => None,
                };
            },
        }
    }
}

/// The value of the secret `name`: `from_env` (the process environment's value,
/// `None` when unset) when it is not empty, else what the `env` file's contents
/// `file` give (`None` when the file could not be read).
pub fn env_or_file(name: &str, from_env: Option<String>, file: Option<String>) -> (r: Option<
    String,
>)
    ensures
        opt_view(r) == env_value(name@, opt_view(from_env), opt_view(file)),
{
    match non_empty_string(from_env) {
        Some(v) => Some(v),
        None => match file {
            Some(raw) => env_file_lookup(raw.as_str(), name),
            None => None,
        },
    }
}


/// A line never gives an empty value.
proof fn lemma_line_value_not_empty(line: Seq<char>, name: Seq<char>)
    ensures
        env_line_value(line, name) matches Some(v) ==> v.len() > 0,
{
}

/// A secret that is found is never empty, and a non-empty value in the process
/// environment is taken over the file.
pub proof fn law_found_secret_not_empty(
    name: Seq<char>,
    from_env: Option<Seq<char>>,
    file: Option<Seq<char>>,
)
    ensures
        env_value(name, from_env, file) matches Some(v) ==> v.len() > 0,
        (from_env matches Some(e) && e.len() > 0) ==> env_value(name, from_env, file) == from_env,
{
    match file {
        Some(raw) => lemma_lookup_not_empty(lines(raw), name),
        None => {},
    }
}

proof fn lemma_lookup_not_empty(ls: Seq<Seq<char>>, name: Seq<char>)
    ensures
        lookup_lines(ls, name) matches Some(v) ==> v.len() > 0,
    decreases ls.len(),
{
    if ls.len() > 0 {
        lemma_line_value_not_empty(ls[0], name);
        lemma_lookup_not_empty(ls.drop_first(), name);
    }
}

} // verus!
