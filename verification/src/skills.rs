//! Skills: Markdown instructions the user adds to a prompt.
//!
//! A skill is `<skills dir>/<name>/SKILL.md` (or a loose `<name>.md` there),
//! with an optional front matter:
//!
//! ```text
//! ---
//! name: revisor-pt
//! description: revisa texto em português com rigor
//! ---
//! (body with the instructions)
//! ```
//!
//! Finding the files is the caller's part; parsing, choosing and composing are
//! here.

use vstd::prelude::*;
use crate::text::{
    char_views, eq_ignore_ascii_case, find_chars, find_seq, from_chars, has_prefix_at, lines,
    slice_chars, split_lines, split_once, split_once_chars, starts_with, str_eq_ignore_ascii_case,
    to_chars, trim, trim_chars, trim_matches, trim_matches_chars, chars_eq, lex_lt, lemma_lex_order,
    lemma_find_char, find_char,
    str_lt,
};

verus! {

broadcast use vstd::string::group_string_axioms;

/// A skill: its name, a description, and the instructions.
pub struct Skill {
    pub name: String,
    pub description: String,
    pub body: String,
}

/// The mathematical form of a [`Skill`].
pub struct SkillView {
    pub name: Seq<char>,
    pub description: Seq<char>,
    pub body: Seq<char>,
}

impl View for Skill {
    type V = SkillView;

    open spec fn view(&self) -> SkillView {
        SkillView { name: self.name@, description: self.description@, body: self.body@ }
    }
}

impl Clone for Skill {
    fn clone(&self) -> (r: Self)
        ensures
            r@ == self@,
    {
        Skill {
            name: self.name.clone(),
            description: self.description.clone(),
            body: self.body.clone(),
        }
    }
}

/// The views of a list of skills.
pub open spec fn skills_view(v: Seq<Skill>) -> Seq<SkillView> {
    v.map_values(|s: Skill| s@)
}

/// Name and description after the front-matter lines `ls`: a `name:` or
/// `description:` line sets that field to its value, trimmed and without
/// surrounding double quotes; a later line wins; other lines are ignored.
pub open spec fn front_fields(ls: Seq<Seq<char>>, fallback: Seq<char>) -> (Seq<char>, Seq<char>)
    decreases ls.len(),
{
    if ls.len() == 0 {
        (fallback, Seq::empty())
    } else {
        let (n, d) = front_fields(ls.drop_last(), fallback);
        match split_once(ls.last(), ':') {
            Some((k, v)) => {
                let value = trim_matches(trim(v), '"');
                if trim(k) == "name"@ {
                    (value, d)
                } else if trim(k) == "description"@ {
                    (n, value)
                } else {
                    (n, d)
                }
            },
            None => (n, d),
        }
    }
}

/// The skill a file's contents `raw` describe. With a front matter (`---` line,
/// fields, a line starting with `---`) the fields come from it and the body is
/// what follows; without one the whole text is the body and the name is
/// `fallback`. The body is trimmed.
pub open spec fn parsed_skill(raw: Seq<char>, fallback: Seq<char>) -> SkillView {
    if starts_with(raw, "---\n"@) {
        let rest = raw.skip("---\n"@.len() as int);
        match find_seq(rest, "\n---"@) {
            Some(end) => {
                let (n, d) = front_fields(lines(rest.take(end)), fallback);
                SkillView { name: n, description: d, body: trim(rest.skip(end + "\n---"@.len())) }
            },
            None => SkillView { name: fallback, description: Seq::empty(), body: trim(raw) },
        }
    } else {
        SkillView { name: fallback, description: Seq::empty(), body: trim(raw) }
    }
}

fn field_line(line: &[char], name: Vec<char>, desc: Vec<char>) -> (r: (Vec<char>, Vec<char>))
    ensures
        (r.0@, r.1@) == match split_once(line@, ':') {
            Some((k, v)) => {
                let value = trim_matches(trim(v), '"');
                if trim(k) == "name"@ {
                    (value, desc@)
                } else if trim(k) == "description"@ {
                    (name@, value)
                } else {
                    (name@, desc@)
                }
            },
            None => (name@, desc@),
        },
{
    match split_once_chars(line, ':') {
        Some((k, v)) => {
            let vt = trim_chars(v.as_slice());
            let value = trim_matches_chars(vt.as_slice(), '"');
            let kt = trim_chars(k.as_slice());
            let name_key = to_chars("name");
            let desc_key = to_chars("description");
            if chars_eq(kt.as_slice(), name_key.as_slice()) {
                (value, desc)
            } else if chars_eq(kt.as_slice(), desc_key.as_slice()) {
                (name, value)
            } else {
                (name, desc)
            }
        },
        None => (name, desc),
    }
}

/// The skill described by a file's contents `raw`, named `fallback_name`
/// unless its front matter names it.
pub fn parse(raw: &str, fallback_name: &str) -> (s: Skill)
    ensures
        s@ == parsed_skill(raw@, fallback_name@),
{
    let v = to_chars(raw);
    let open_mark = to_chars("---\n");
    let close_mark = to_chars("\n---");
    let n = v.len();
    assert(v@.subrange(0, n as int) =~= v@);
    if has_prefix_at(v.as_slice(), 0, open_mark.as_slice()) {
        let rest = slice_chars(v.as_slice(), open_mark.len(), n);
        assert(rest@ =~= v@.skip(open_mark@.len() as int));
        match find_chars(rest.as_slice(), close_mark.as_slice()) {
            Some(end) => {
                let front = slice_chars(rest.as_slice(), 0, end);
                assert(front@ =~= rest@.take(end as int));
                let ls = split_lines(front.as_slice());
                let mut name = to_chars(fallback_name);
                let mut desc: Vec<char> = Vec::new();
                let mut k: usize = 0;
                assert(char_views(ls@).take(0) =~= Seq::<Seq<char>>::empty());
                while k < ls.len()
                    invariant
                        k <= ls@.len(),
                        (name@, desc@) == front_fields(char_views(ls@).take(k as int), fallback_name@),
                    decreases ls.len() - k,
                {
                    assert(char_views(ls@).take(k + 1).drop_last() =~= char_views(ls@).take(
                        k as int,
                    ));
                    assert(char_views(ls@).take(k + 1).last() == ls@[k as int]@);
                    let r = field_line(ls[k].as_slice(), name, desc);
                    name = r.0;
                    desc = r.1;
                    k += 1;
                }
                assert(char_views(ls@).take(ls@.len() as int) =~= char_views(ls@));
                let m = rest.len();
                let tail = slice_chars(rest.as_slice(), end + close_mark.len(), m);
                assert(tail@ =~= rest@.skip(end + close_mark@.len()));
                let body = trim_chars(tail.as_slice());
                Skill {
                    name: from_chars(name.as_slice()),
                    description: from_chars(desc.as_slice()),
                    body: from_chars(body.as_slice()),
                }
            },
            None => {
                let body = trim_chars(v.as_slice());
                Skill {
                    name: fallback_name.to_string(),
                    description: String::new(),
                    body: from_chars(body.as_slice()),
                }
            },
        }
    } else {
        let body = trim_chars(v.as_slice());
        Skill {
            name: fallback_name.to_string(),
            description: String::new(),
            body: from_chars(body.as_slice()),
        }
    }
}


/// How one skill is appended to a prompt: a `# Skill:` heading with its name,
/// its description when it has one, then its body.
pub open spec fn skill_section(s: SkillView) -> Seq<char> {
    "\n\n# Skill: "@ + s.name + "\n"@ + (if s.description.len() > 0 {
        s.description + "\n\n"@
    } else {
        Seq::empty()
    }) + s.body
}

/// The sections of `skills`, in order.
pub open spec fn addendum_text(skills: Seq<SkillView>) -> Seq<char>
    decreases skills.len(),
{
    if skills.len() == 0 {
        Seq::empty()
    } else {
        addendum_text(skills.drop_last()) + skill_section(skills.last())
    }
}

/// The part of a prompt that the skills add.
pub fn addendum(skills: &[Skill]) -> (r: String)
    ensures
        r@ == addendum_text(skills_view(skills@)),
{
    let mut r = String::new();
    let mut i: usize = 0;
    while i < skills.len()
        invariant
            i <= skills@.len(),
            r@ == addendum_text(skills_view(skills@.take(i as int))),
        decreases skills.len() - i,
    {
        assert(skills_view(skills@.take(i + 1)).drop_last() =~= skills_view(skills@.take(i as int)));
        let sk = &skills[i];
        let ghost before = r@;
        r.append("\n\n# Skill: ");
        r.append(sk.name.as_str());
        r.append("\n");
        let ghost mid = r@;
        if !sk.description.as_str().is_empty() {
            r.append(sk.description.as_str());
            r.append("\n\n");
        } else {
            assert(mid + Seq::<char>::empty() =~= mid);
        }
        r.append(sk.body.as_str());
        assert(r@ =~= before + skill_section(sk@));
        i += 1;
    }
    assert(skills@.take(skills@.len() as int) =~= skills@);
    r
}

/// A base prompt followed by the skills' sections.
pub fn compose(base: &str, skills: &[Skill]) -> (r: String)
    ensures
        r@ == base@ + addendum_text(skills_view(skills@)),
{
    let mut r = base.to_string();
    let a = addendum(skills);
    r.append(a.as_str());
    r
}

/// Position of the first skill whose name equals `name` up to ASCII case.
pub open spec fn skill_named(skills: Seq<SkillView>, name: Seq<char>) -> Option<int>
    decreases skills.len(),
{
    if skills.len() == 0 {
        None
    } else if eq_ignore_ascii_case(skills[0].name, name) {
        Some(0)
    } else {
        match skill_named(skills.drop_first(), name) {
            Some(i) => Some(i + 1),
            None => None,
        }
    }
}

/// The error for a skill that is not available.
pub open spec fn missing_skill_text(name: Seq<char>, dir: Seq<char>) -> Seq<char> {
    "skill '"@ + name + "' não encontrada em "@ + dir
}

/// The skills chosen by `names`, in the order asked, or the error for the
/// first name that matches no available skill.
pub open spec fn chosen(
    names: Seq<Seq<char>>,
    available: Seq<SkillView>,
    dir: Seq<char>,
) -> Result<Seq<SkillView>, Seq<char>>
    decreases names.len(),
{
    if names.len() == 0 {
        Ok(Seq::empty())
    } else {
        match skill_named(available, names[0]) {
            None => Err(missing_skill_text(names[0], dir)),
            Some(i) => match chosen(names.drop_first(), available, dir) {
                Ok(rest) => Ok(seq![available[i]] + rest),
                Err(e) => Err(e),
            },
        }
    }
}

/// `acc` put before a choice.
pub open spec fn prefixed(acc: Seq<SkillView>, r: Result<Seq<SkillView>, Seq<char>>) -> Result<
    Seq<SkillView>,
    Seq<char>,
> {
    match r {
        Ok(x) => Ok(acc + x),
        Err(e) => Err(e),
    }
}

fn find_skill(available: &[Skill], name: &str) -> (r: Option<usize>)
    ensures
        skill_named(skills_view(available@), name@) == match r {
            Some(i) => Some(i as int),
            None => None::<int>,
        },
        r matches Some(i) ==> i < available@.len(),
{
    let n = available.len();
    let mut i: usize = 0;
    let ghost sv = skills_view(available@);
    assert(sv.subrange(0, n as int) =~= sv);
    while i < n
        invariant
            i <= n == available@.len(),
            sv == skills_view(available@),
            match skill_named(sv, name@) {
                Some(k) => match skill_named(sv.subrange(i as int, n as int), name@) {
                    Some(m) => k == m + i,
                    None => false,
                },
                None => skill_named(sv.subrange(i as int, n as int), name@) is None,
            },
        decreases n - i,
    {
        assert(sv.subrange(i as int, n as int)[0] == available@[i as int]@);
        if str_eq_ignore_ascii_case(available[i].name.as_str(), name) {
            return Some(i);
        }
        assert(sv.subrange(i as int, n as int).drop_first() =~= sv.subrange(i + 1, n as int));
        i += 1;
    }
    None
}

/// The skills asked for on the command line, from the `available` ones found
/// in the skills directory `dir` (named in the error).
pub fn load(names: &[String], available: &[Skill], dir: &str) -> (r: Result<Vec<Skill>, String>)
    ensures
        match chosen(crate::text::views(names@), skills_view(available@), dir@) {
            Ok(v) => r matches Ok(x) && skills_view(x@) == v,
            Err(e) => r matches Err(x) && x@ == e,
        },
{
    let ghost nv = crate::text::views(names@);
    let ghost av = skills_view(available@);
    let mut out: Vec<Skill> = Vec::new();
    let mut k: usize = 0;
    assert(nv.skip(0) =~= nv);
    assert(skills_view(out@) =~= Seq::<SkillView>::empty());
    assert(Seq::<SkillView>::empty() + Seq::<SkillView>::empty() =~= Seq::<SkillView>::empty());
    while k < names.len()
        invariant
            k <= names@.len(),
            nv == crate::text::views(names@),
            av == skills_view(available@),
            chosen(nv, av, dir@) == prefixed(skills_view(out@), chosen(nv.skip(k as int), av, dir@)),
        decreases names.len() - k,
    {
        let ghost rest = nv.skip(k as int);
        assert(rest[0] == names@[k as int]@);
        assert(rest.drop_first() =~= nv.skip(k + 1));
        match find_skill(available, names[k].as_str()) {
            None => {
                let mut e = "skill '".to_string();
                e.append(names[k].as_str());
                e.append("' não encontrada em ");
                e.append(dir);
                return Err(e);
            },
            Some(i) => {
                let ghost before = skills_view(out@);
                out.push(available[i].clone());
                proof {
                    assert(skills_view(out@) =~= before.push(av[i as int]));
                    match chosen(nv.skip(k + 1), av, dir@) {
                        Ok(x) => {
                            assert(before + (seq![av[i as int]] + x) =~= skills_view(out@) + x);
                        },
                        Err(_) => {},
                    }
                }
            },
        }
        k += 1;
    }
    proof {
        assert(nv.skip(names@.len() as int) =~= Seq::<Seq<char>>::empty());
        assert(skills_view(out@) + Seq::<SkillView>::empty() =~= skills_view(out@));
    }
    Ok(out)
}


/// Skills in order of name: no skill's name comes before an earlier one's.
pub open spec fn sorted_by_name(v: Seq<SkillView>) -> bool {
    forall|i: int, j: int| 0 <= i < j < v.len() ==> !lex_lt(v[j].name, v[i].name)
}

/// Where `x` goes in `acc`: after the leading skills whose names do not come
/// after its name.
pub open spec fn insert_pos(acc: Seq<SkillView>, x: SkillView) -> int
    decreases acc.len(),
{
    if acc.len() == 0 {
        0
    } else if lex_lt(x.name, acc[0].name) {
        0
    } else {
        1 + insert_pos(acc.drop_first(), x)
    }
}

/// `s` sorted by name by inserting each skill in turn after those whose names
/// do not come after it: a stable sort, so skills with equal names keep their order.
pub open spec fn stable_sorted(s: Seq<SkillView>) -> Seq<SkillView>
    decreases s.len(),
{
    if s.len() == 0 {
        s
    } else {
        let acc = stable_sorted(s.drop_last());
        acc.insert(insert_pos(acc, s.last()), s.last())
    }
}

/// The skills ordered by name, as the stable `sort_by` on the names orders them.
pub fn sort_by_name(skills: Vec<Skill>) -> (r: Vec<Skill>)
    ensures
        skills_view(r@) == stable_sorted(skills_view(skills@)),
        sorted_by_name(skills_view(r@)),
        skills_view(r@).to_multiset() == skills_view(skills@).to_multiset(),
{
    broadcast use vstd::seq_lib::group_to_multiset_ensures;
    broadcast use vstd::multiset::group_multiset_axioms;

    let ghost orig = skills_view(skills@);
    let mut input = skills;
    let mut out: Vec<Skill> = Vec::new();
    let ghost mut k: int = 0;
    assert(skills_view(out@) =~= Seq::<SkillView>::empty());
    assert(skills_view(out@).to_multiset().add(skills_view(input@).to_multiset()) =~= orig.to_multiset());
    assert(orig.take(0) =~= Seq::<SkillView>::empty());
    assert(orig.skip(0) =~= orig);
    while input.len() > 0
        invariant
            0 <= k <= orig.len(),
            skills_view(out@) == stable_sorted(orig.take(k)),
            skills_view(input@) == orig.skip(k),
            sorted_by_name(skills_view(out@)),
            skills_view(out@).to_multiset().add(skills_view(input@).to_multiset())
                == orig.to_multiset(),
        decreases input.len(),
    {
        let ghost iv = skills_view(input@);
        let x = input.remove(0);
        proof {
            assert(skills_view(input@) =~= iv.remove(0));
            vstd::seq_lib::to_multiset_remove(iv, 0);
        }
        let ghost ov = skills_view(out@);
        let mut p: usize = 0;
        assert(ov.skip(0) =~= ov);
        while p < out.len() && !str_lt(x.name.as_str(), out[p].name.as_str())
            invariant
                p <= out@.len(),
                ov == skills_view(out@),
                forall|i: int| 0 <= i < p ==> !lex_lt(x.name@, #[trigger] ov[i].name),
                insert_pos(ov, x@) == p + insert_pos(ov.skip(p as int), x@),
            decreases out.len() - p,
        {
            assert(ov.skip(p as int)[0] == ov[p as int]);
            assert(ov.skip(p as int).drop_first() =~= ov.skip(p + 1));
            p += 1;
        }
        proof {
            if p < ov.len() {
                assert(ov.skip(p as int)[0] == ov[p as int]);
            }
            assert(insert_pos(ov, x@) == p);
            assert(iv[0] == orig[k]);
            assert(orig.take(k + 1).drop_last() =~= orig.take(k));
            assert(orig.take(k + 1).last() == orig[k]);
        }
        let ghost xv = x@;
        out.insert(p, x);
        proof {
            let nv = skills_view(out@);
            assert(nv =~= ov.insert(p as int, xv));
            vstd::seq_lib::to_multiset_insert(ov, p as int, xv);
            assert forall|i: int, j: int| 0 <= i < j < nv.len() implies !lex_lt(
                nv[j].name,
                nv[i].name,
            ) by {
                if i == p && j > p {
                    lemma_lex_order(ov[j - 1].name, xv.name, ov[p as int].name);
                    lemma_lex_order(ov[j - 1].name, ov[p as int].name, ov[p as int].name);
                } else if j == p {
                } else if i < p && j > p {
                    assert(nv[j] == ov[j - 1]);
                } else if j < p {
                } else {
                    assert(nv[i] == ov[i - 1]);
                    assert(nv[j] == ov[j - 1]);
                }
            }
            assert(iv[0] == xv);
            assert(iv.contains(xv));
            vstd::seq_lib::to_multiset_contains(iv, xv);
            assert(iv.to_multiset().count(xv) > 0);
            assert(nv.to_multiset().add(skills_view(input@).to_multiset()) =~= ov.to_multiset().add(
                iv.to_multiset(),
            ));
            assert(skills_view(input@) =~= orig.skip(k + 1));
            k = k + 1;
        }
    }
    assert(skills_view(input@) =~= Seq::<SkillView>::empty());
    assert(k == orig.len());
    assert(orig.take(k) =~= orig);
    assert(skills_view(out@).to_multiset() =~= orig.to_multiset());
    out
}


/// The sections of two lists of skills are the sections of the first followed
/// by those of the second.
pub proof fn law_addendum_concat(a: Seq<SkillView>, b: Seq<SkillView>)
    ensures
        addendum_text(a + b) == addendum_text(a) + addendum_text(b),
    decreases b.len(),
{
    if b.len() == 0 {
        assert(a + b =~= a);
    } else {
        law_addendum_concat(a, b.drop_last());
        assert((a + b).drop_last() =~= a + b.drop_last());
        assert((a + b).last() == b.last());
    }
}

/// Without skills a prompt is unchanged.
pub proof fn law_compose_without_skills(base: Seq<char>)
    ensures
        base + addendum_text(Seq::empty()) == base,
{
    assert(base + addendum_text(Seq::empty()) =~= base);
}

/// Asking for no skill never fails, and asking for available skills gives them
/// in the order asked.
pub proof fn law_choice_order(names: Seq<Seq<char>>, available: Seq<SkillView>, dir: Seq<char>)
    ensures
        chosen(Seq::empty(), available, dir) == Ok::<Seq<SkillView>, Seq<char>>(Seq::empty()),
        chosen(names, available, dir) matches Ok(v) ==> v.len() == names.len(),
    decreases names.len(),
{
    if names.len() > 0 {
        law_choice_order(names.drop_first(), available, dir);
    }
}


/// The file of a skill kept in a folder of its own.
pub const SKILL_FILE: &'static str = "SKILL.md";

/// What an entry of the skills directory is to the search.
pub enum SkillSource {
    /// A folder: the skill is its `SKILL.md`.
    Folder,
    /// A loose `.md` file: the skill is the file itself.
    File,
    /// Anything else.
    NotASkill,
}

/// What an entry is, given whether it is a directory and its extension (when
/// it has one that is valid text).
pub fn skill_source(is_dir: bool, extension: Option<&str>) -> (r: SkillSource)
    ensures
        is_dir ==> r is Folder,
        !is_dir && (extension matches Some(e) && e@ == "md"@) ==> r is File,
        !is_dir && !(extension matches Some(e) && e@ == "md"@) ==> r is NotASkill,
{
    if is_dir {
        SkillSource::Folder
    } else {
        match extension {
            Some(e) => if crate::text::str_eq(e, "md") {
                SkillSource::File
            } else {
                SkillSource::NotASkill
            },
            None => SkillSource::NotASkill,
        }
    }
}

/// The name of a skill without front matter: the file's stem, or `skill` when
/// it has none that is valid text.
pub fn fallback_name(stem: Option<&str>) -> (r: &str)
    ensures
        r@ == match stem {
            Some(s) => s@,
            None => "skill"@,
        },
{
    match stem {
        Some(s) => s,
        None => "skill",
    }
}

/// A front-matter line `key: value` sets the field its key names, whatever came
/// before: a `name` line makes the name, a `description` line the description,
/// each the value trimmed and without surrounding double quotes, and the other
/// field stays as it was. Any other line changes nothing.
pub proof fn law_field_line_sets_its_field(ls: Seq<Seq<char>>, fallback: Seq<char>)
    requires
        ls.len() > 0,
    ensures
        match split_once(ls.last(), ':') {
            Some((k, v)) => if trim(k) == "name"@ {
                front_fields(ls, fallback) == (
                trim_matches(trim(v), '"'),
                front_fields(ls.drop_last(), fallback).1,
                )
            } else if trim(k) == "description"@ {
                front_fields(ls, fallback) == (
                front_fields(ls.drop_last(), fallback).0,
                trim_matches(trim(v), '"'),
                )
            } else {
                front_fields(ls, fallback) == front_fields(ls.drop_last(), fallback)
            },
            None => front_fields(ls, fallback) == front_fields(ls.drop_last(), fallback),
        },
{
}

/// A file whose front matter is the one line `key: value` (a line with no
/// line break) gets, for the key `name`, that name, and for the key
/// `description`, that description, trimmed and without surrounding double
/// quotes; the body is what follows the closing `---`, trimmed.
pub proof fn law_one_line_front_matter(
    line: Seq<char>,
    body: Seq<char>,
    fallback: Seq<char>,
    k: Seq<char>,
    v: Seq<char>,
)
    requires
        forall|i: int| 0 <= i < line.len() ==> line[i] != '\n',
        split_once(line, ':') == Some((k, v)),
    ensures
        trim(k) == "name"@ ==> parsed_skill("---\n"@ + line + "\n---"@ + body, fallback)
            == (SkillView {
            name: trim_matches(trim(v), '"'),
            description: Seq::empty(),
            body: trim(body),
        }),
        trim(k) == "description"@ ==> parsed_skill("---\n"@ + line + "\n---"@ + body, fallback)
            == (SkillView {
            name: fallback,
            description: trim_matches(trim(v), '"'),
            body: trim(body),
        }),
{
    reveal_strlit("---\n");
    reveal_strlit("\n---");
    reveal_strlit("name");
    reveal_strlit("description");
    let open = "---\n"@;
    let close = "\n---"@;
    let raw = open + line + close + body;
    lemma_find_char(line, ':');
    assert(line.len() > 0);
    assert(raw.subrange(0, open.len() as int) =~= open);
    let rest = raw.skip(open.len() as int);
    assert(rest =~= line + close + body);
    lemma_find_seq_after(line, close, body);
    assert(rest.take(line.len() as int) =~= line);
    lemma_find_char(line, '\n');
    assert(find_char(line, '\n') is None);
    assert(lines(line) == seq![line]);
    assert(seq![line].drop_last() =~= Seq::<Seq<char>>::empty());
    assert(rest.skip((line.len() + close.len()) as int) =~= body);
    assert(starts_with(raw, open));
    assert(find_seq(rest, close) == Some(line.len() as int));
    assert(lines(rest.take(line.len() as int)) == seq![line]);
    let ff = front_fields(seq![line], fallback);
    assert(seq![line].last() == line);
    assert(front_fields(seq![line].drop_last(), fallback) == (fallback, Seq::<char>::empty()));
    assert(parsed_skill(raw, fallback) == (SkillView {
        name: ff.0,
        description: ff.1,
        body: trim(body),
    }));
    if trim(k) == "description"@ {
        assert("description"@.len() != "name"@.len());
        assert(trim(k) != "name"@);
        assert(ff == (fallback, trim_matches(trim(v), '"')));
    }
}

/// The first occurrence of `p` in `a + p + t`, where no character of `a` is the
/// first of `p`, is right after `a`.
proof fn lemma_find_seq_after(a: Seq<char>, p: Seq<char>, t: Seq<char>)
    requires
        p.len() > 0,
        forall|i: int| 0 <= i < a.len() ==> a[i] != p[0],
    ensures
        find_seq(a + p + t, p) == Some(a.len() as int),
    decreases a.len(),
{
    let s = a + p + t;
    if a.len() == 0 {
        assert(s.subrange(0, p.len() as int) =~= p);
    } else {
        assert(s.subrange(0, p.len() as int)[0] == a[0]);
        let a2 = a.drop_first();
        assert forall|i: int| 0 <= i < a2.len() implies a2[i] != p[0] by {
            assert(a2[i] == a[i + 1]);
        }
        lemma_find_seq_after(a2, p, t);
        assert(s.drop_first() =~= a2 + p + t);
    }
}

/// The skill chosen for a name is the first whose name equals it up to ASCII
/// case: `skill_named` gives `i` only when skill `i` matches and no earlier one
/// does, and nothing only when none matches.
pub proof fn law_skill_named_is_first_match(skills: Seq<SkillView>, name: Seq<char>)
    ensures
        match skill_named(skills, name) {
            Some(i) => 0 <= i < skills.len() && eq_ignore_ascii_case(skills[i].name, name)
                && forall|j: int|
                0 <= j < i ==> !eq_ignore_ascii_case(#[trigger] skills[j].name, name),
            None => forall|j: int|
                0 <= j < skills.len() ==> !eq_ignore_ascii_case(#[trigger] skills[j].name, name),
        },
    decreases skills.len(),
{
    if skills.len() > 0 && !eq_ignore_ascii_case(skills[0].name, name) {
        let t = skills.drop_first();
        law_skill_named_is_first_match(t, name);
        assert forall|j: int| 1 <= j < skills.len() implies #[trigger] skills[j] == t[j - 1] by {}
    }
}

} // verus!
