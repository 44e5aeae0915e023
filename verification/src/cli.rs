//! The command line: which mode to run, the flags every mode shares, and the
//! help text. Each mode is a step in the evolution of how a model is used.

use vstd::prelude::*;
use crate::text::{join, join_strings, str_eq, trim, trim_str, views};

verus! {

broadcast use vstd::string::group_string_axioms;

/// The common flags of a mode's arguments.
pub struct Cli {
    /// Names given with `--skill <name>` (repeatable).
    pub skills: Vec<String>,
    /// Everything else: the prompt or task.
    pub rest: Vec<String>,
}

/// Whether an argument introduces a skill name.
pub open spec fn is_skill_flag(a: Seq<char>) -> bool {
    a == "--skill"@ || a == "-s"@
}

/// `args` split into skill names and the rest: `--skill` or `-s` takes the next
/// argument as a skill name (a flag with nothing after it is dropped); every
/// other argument goes to the rest, in order.
pub open spec fn split_args(args: Seq<Seq<char>>) -> (Seq<Seq<char>>, Seq<Seq<char>>)
    decreases args.len(),
{
    if args.len() == 0 {
        (Seq::empty(), Seq::empty())
    } else if is_skill_flag(args[0]) {
        if args.len() >= 2 {
            let (s, r) = split_args(args.skip(2));
            (seq![args[1]] + s, r)
        } else {
            (Seq::empty(), Seq::empty())
        }
    } else {
        let (s, r) = split_args(args.skip(1));
        (s, seq![args[0]] + r)
    }
}

/// Separates `--skill <name>` from the rest of a mode's arguments.
pub fn parse(args: &[String]) -> (c: Cli)
    ensures
        (views(c.skills@), views(c.rest@)) == split_args(views(args@)),
{
    let ghost av = views(args@);
    let mut skills: Vec<String> = Vec::new();
    let mut rest: Vec<String> = Vec::new();
    let mut k: usize = 0;
    let n = args.len();
    assert(av.skip(0) =~= av);
    assert(views(skills@) =~= Seq::<Seq<char>>::empty());
    assert(views(rest@) =~= Seq::<Seq<char>>::empty());
    while k < n
        invariant
            k <= n == args@.len(),
            av == views(args@),
            ({
                let (s, r) = split_args(av.skip(k as int));
                split_args(av) == (views(skills@) + s, views(rest@) + r)
            }),
        decreases n - k,
    {
        let ghost tail = av.skip(k as int);
        assert(tail[0] == args@[k as int]@);
        let a = args[k].as_str();
        if str_eq(a, "--skill") || str_eq(a, "-s") {
            if k + 1 < n {
                assert(tail[1] == args@[k + 1]@);
                assert(tail.skip(2) =~= av.skip(k + 2));
                let ghost before = views(skills@);
                skills.push(args[k + 1].clone());
                proof {
                    let (s, r) = split_args(av.skip(k + 2));
                    assert(views(skills@) =~= before.push(args@[k + 1]@));
                    assert(before + (seq![tail[1]] + s) =~= views(skills@) + s);
                }
                k += 2;
            } else {
                proof {
                    assert(views(skills@) + Seq::<Seq<char>>::empty() =~= views(skills@));
                    assert(views(rest@) + Seq::<Seq<char>>::empty() =~= views(rest@));
                }
                k += 1;
                assert(av.skip(k as int) =~= Seq::<Seq<char>>::empty());
            }
        } else {
            assert(tail.skip(1) =~= av.skip(k + 1));
            let ghost before = views(rest@);
            rest.push(args[k].clone());
            proof {
                let (s, r) = split_args(av.skip(k + 1));
                assert(views(rest@) =~= before.push(args@[k as int]@));
                assert(before + (seq![tail[0]] + r) =~= views(rest@) + r);
            }
            k += 1;
        }
    }
    proof {
        assert(av.skip(n as int) =~= Seq::<Seq<char>>::empty());
        assert(views(skills@) + Seq::<Seq<char>>::empty() =~= views(skills@));
        assert(views(rest@) + Seq::<Seq<char>>::empty() =~= views(rest@));
    }
    Cli { skills, rest }
}

/// A one-shot prompt: the arguments joined by spaces, or, when there are none,
/// the standard input `stdin` trimmed.
pub fn prompt_from(args: &[String], stdin: &str) -> (p: String)
    ensures
        args@.len() == 0 ==> p@ == trim(stdin@),
        args@.len() > 0 ==> p@ == join(views(args@), " "@),
{
    if args.len() == 0 {
        trim_str(stdin)
    } else {
        join_strings(args, " ")
    }
}


/// The mode the first argument asks for.
pub enum Command {
    Ask,
    Chat,
    Tools,
    Agent,
    Crew,
    Manager,
    /// No mode, `help`, `-h` or `--help`.
    Help,
    /// Anything else, with what was given.
    Unknown(String),
}

/// The mathematical form of a [`Command`].
pub enum CommandView {
    Ask,
    Chat,
    Tools,
    Agent,
    Crew,
    Manager,
    Help,
    Unknown(Seq<char>),
}

impl View for Command {
    type V = CommandView;

    open spec fn view(&self) -> CommandView {
        match self {
            Command::Ask => CommandView::Ask,
            Command::Chat => CommandView::Chat,
            Command::Tools => CommandView::Tools,
            Command::Agent => CommandView::Agent,
            Command::Crew => CommandView::Crew,
            Command::Manager => CommandView::Manager,
            Command::Help => CommandView::Help,
            Command::Unknown(s) => CommandView::Unknown(s@),
        }
    }
}

/// The mode named by the first argument.
pub open spec fn command_for(arg: Option<Seq<char>>) -> CommandView {
    match arg {
        None => CommandView::Help,
        Some(a) => if a == "ask"@ {
            CommandView::Ask
        } else if a == "chat"@ {
            CommandView::Chat
        } else if a == "tools"@ {
            CommandView::Tools
        } else if a == "agent"@ {
            CommandView::Agent
        } else if a == "crew"@ {
            CommandView::Crew
        } else if a == "manager"@ {
            CommandView::Manager
        } else if a == "help"@ || a == "-h"@ || a == "--help"@ {
            CommandView::Help
        } else {
            CommandView::Unknown(a)
        },
    }
}

/// The mode asked for by the first argument (`None` when there is none).
pub fn select_mode(arg: Option<&str>) -> (c: Command)
    ensures
        c@ == command_for(match arg {
            Some(a) => Some(a@),
            None => None,
        }),
{
    match arg {
        None => Command::Help,
        Some(a) => if str_eq(a, "ask") {
            Command::Ask
        } else if str_eq(a, "chat") {
            Command::Chat
        } else if str_eq(a, "tools") {
            Command::Tools
        } else if str_eq(a, "agent") {
            Command::Agent
        } else if str_eq(a, "crew") {
            Command::Crew
        } else if str_eq(a, "manager") {
            Command::Manager
        } else if str_eq(a, "help") || str_eq(a, "-h") || str_eq(a, "--help") {
            Command::Help
        } else {
            Command::Unknown(a.to_string())
        },
    }
}

/// The arguments that belong to the mode: those after the mode's name.
pub fn mode_args(args: &[String]) -> (r: &[String])
    ensures
        args@.len() > 2 ==> r@ == args@.skip(2),
        args@.len() <= 2 ==> r@.len() == 0,
{
    if args.len() > 2 {
        vstd::slice::slice_subrange(args, 2, args.len())
    } else {
        vstd::slice::slice_subrange(args, 0, 0)
    }
}

/// The modes, with what each one does.
pub open spec fn mode_table() -> Seq<(Seq<char>, Seq<char>)> {
    seq![
        ("ask"@, "1ª geração — um prompt entra, um texto sai (sem memória)"@),
        ("chat"@, "2ª geração — loop; cada turno entra no histórico enviado ao modelo"@),
        ("tools"@, "3ª geração — o modelo pede ferramentas; executamos e devolvemos"@),
        ("agent"@, "4ª geração — tarefa + ferramentas de sistema; itera até concluir"@),
        ("crew"@, "5ª geração — equipe de agentes com papéis, em pipeline fixa"@),
        ("manager"@, "6ª geração — um gerente decide em runtime quem faz o quê"@),
    ]
}

/// The modes, with what each one does.
pub fn modes() -> (v: Vec<(&'static str, &'static str)>)
    ensures
        v@.len() == mode_table().len(),
        forall|i: int| 0 <= i < v@.len() ==> (#[trigger] v@[i]).0@ == mode_table()[i].0 && v@[i].1@
            == mode_table()[i].1,
{
    let mut v: Vec<(&'static str, &'static str)> = Vec::new();
    v.push(("ask", "1ª geração — um prompt entra, um texto sai (sem memória)"));
    v.push(("chat", "2ª geração — loop; cada turno entra no histórico enviado ao modelo"));
    v.push(("tools", "3ª geração — o modelo pede ferramentas; executamos e devolvemos"));
    v.push(("agent", "4ª geração — tarefa + ferramentas de sistema; itera até concluir"));
    v.push(("crew", "5ª geração — equipe de agentes com papéis, em pipeline fixa"));
    v.push(("manager", "6ª geração — um gerente decide em runtime quem faz o quê"));
    v
}

/// `s` padded with spaces on the right to `width` characters (`{:<width}`).
pub open spec fn pad_right(s: Seq<char>, width: nat) -> Seq<char> {
    if s.len() < width {
        s + Seq::new((width - s.len()) as nat, |_i: int| ' ')
    } else {
        s
    }
}

fn pad(s: &str, width: usize) -> (r: String)
    ensures
        r@ == pad_right(s@, width as nat),
{
    let mut r = s.to_string();
    let n = crate::text::to_chars(s).len();
    let mut k = n;
    while k < width
        invariant
            n == s@.len(),
            n <= k <= width || (k == n && n >= width),
            r@ == s@ + Seq::new((k - n) as nat, |_i: int| ' '),
        decreases width - k,
    {
        crate::text::push_char(&mut r, ' ');
        assert(r@ =~= s@ + Seq::new((k + 1 - n) as nat, |_i: int| ' '));
        k += 1;
    }
    assert(n >= width ==> r@ =~= s@);
    r
}

/// The help text's lines for the modes.
pub open spec fn mode_lines(table: Seq<(Seq<char>, Seq<char>)>) -> Seq<char>
    decreases table.len(),
{
    if table.len() == 0 {
        Seq::empty()
    } else {
        mode_lines(table.drop_last()) + "    "@ + pad_right(table.last().0, 8) + table.last().1
            + "\n"@
    }
}

/// The help text.
pub open spec fn help(table: Seq<(Seq<char>, Seq<char>)>) -> Seq<char> {
    "vulcano — modos que acompanham a evolução das LLMs\n\n"@
        + "USO:\n    vulcano <modo> [--skill <nome>]... [texto]\n\n"@ + "MODOS:\n"@ + mode_lines(table)
        + "\n--skill <nome>  injeta ~/.config/vulcano/skills/<nome>/SKILL.md no prompt\n"@
        + "mcp             ~/.config/vulcano/mcp.json pluga ferramentas externas nos modos com tools\n"@
}

/// The help text: usage, the modes with what each does, and the options.
pub fn help_text() -> (r: String)
    ensures
        r@ == help(mode_table()),
{
    let table = modes();
    let mut r = "vulcano — modos que acompanham a evolução das LLMs\n\n".to_string();
    r.append("USO:\n    vulcano <modo> [--skill <nome>]... [texto]\n\n");
    r.append("MODOS:\n");
    let ghost head = r@;
    let ghost tv = Seq::new(table@.len(), |i: int| (table@[i].0@, table@[i].1@));
    assert(tv =~= mode_table());
    let mut i: usize = 0;
    while i < table.len()
        invariant
            i <= table@.len(),
            tv.len() == table@.len(),
            forall|j: int| 0 <= j < tv.len() ==> #[trigger] tv[j] == (table@[j].0@, table@[j].1@),
            r@ == head + mode_lines(tv.take(i as int)),
        decreases table.len() - i,
    {
        assert(tv.take(i + 1).drop_last() =~= tv.take(i as int));
        assert(tv.take(i + 1).last() == tv[i as int]);
        r.append("    ");
        let padded = pad(table[i].0, 8);
        r.append(padded.as_str());
        r.append(table[i].1);
        r.append("\n");
        i += 1;
    }
    assert(tv.take(table@.len() as int) =~= tv);
    r.append("\n--skill <nome>  injeta ~/.config/vulcano/skills/<nome>/SKILL.md no prompt\n");
    r.append(
        "mcp             ~/.config/vulcano/mcp.json pluga ferramentas externas nos modos com tools\n",
    );
    r
}


/// What a line typed in the `chat` mode asks for.
pub enum ChatInput {
    /// `sair` (in any ASCII case): end the conversation.
    Quit,
    /// A blank line: ask again.
    Skip,
    /// A message to send, trimmed.
    Send(String),
}

/// What a line typed in the `chat` mode asks for.
pub fn chat_input(line: &str) -> (r: ChatInput)
    ensures
        trim(line@).len() == 0 ==> r is Skip,
        trim(line@).len() > 0 && crate::text::eq_ignore_ascii_case(trim(line@), "sair"@)
            ==> r is Quit,
        trim(line@).len() > 0 && !crate::text::eq_ignore_ascii_case(trim(line@), "sair"@)
            ==> (r matches ChatInput::Send(m) && m@ == trim(line@)),
{
    let t = trim_str(line);
    if t.as_str().is_empty() {
        ChatInput::Skip
    } else if crate::text::str_eq_ignore_ascii_case(t.as_str(), "sair") {
        ChatInput::Quit
    } else {
        ChatInput::Send(t)
    }
}


/// Arguments without a skill flag are all kept, in order, as the prompt.
pub proof fn law_plain_arguments_are_kept(args: Seq<Seq<char>>)
    requires
        forall|i: int| 0 <= i < args.len() ==> !is_skill_flag(#[trigger] args[i]),
    ensures
        split_args(args) == (Seq::<Seq<char>>::empty(), args),
    decreases args.len(),
{
    if args.len() > 0 {
        assert(!is_skill_flag(args[0]));
        assert forall|i: int| 0 <= i < args.skip(1).len() implies !is_skill_flag(
            #[trigger] args.skip(1)[i],
        ) by {
            assert(args.skip(1)[i] == args[i + 1]);
        }
        law_plain_arguments_are_kept(args.skip(1));
        assert(seq![args[0]] + args.skip(1) =~= args);
    }
}

/// Nothing is invented: there are never more skill names and prompt words
/// than arguments.
pub proof fn law_split_is_no_larger(args: Seq<Seq<char>>)
    ensures
        split_args(args).0.len() + split_args(args).1.len() <= args.len(),
    decreases args.len(),
{
    if args.len() > 0 {
        if is_skill_flag(args[0]) {
            if args.len() >= 2 {
                law_split_is_no_larger(args.skip(2));
            }
        } else {
            law_split_is_no_larger(args.skip(1));
        }
    }
}

/// Whether `a` is one of the words that ask for help.
pub open spec fn asks_for_help(a: Seq<char>) -> bool {
    a == "help"@ || a == "-h"@ || a == "--help"@
}

/// Whether `a` names one of the six modes.
pub open spec fn names_a_mode(a: Seq<char>) -> bool {
    a == "ask"@ || a == "chat"@ || a == "tools"@ || a == "agent"@ || a == "crew"@ || a
        == "manager"@
}

/// Each mode is selected by its own name and by nothing else; help comes with
/// no argument and with `help`, `-h` or `--help`, and only then; any other
/// argument is unknown, and kept as it was given.
pub proof fn law_each_name_selects_its_mode(a: Seq<char>)
    ensures
        command_for(None) == CommandView::Help,
        command_for(Some(a)) == CommandView::Help <==> asks_for_help(a),
        command_for(Some(a)) == CommandView::Ask <==> a == "ask"@,
        command_for(Some(a)) == CommandView::Chat <==> a == "chat"@,
        command_for(Some(a)) == CommandView::Tools <==> a == "tools"@,
        command_for(Some(a)) == CommandView::Agent <==> a == "agent"@,
        command_for(Some(a)) == CommandView::Crew <==> a == "crew"@,
        command_for(Some(a)) == CommandView::Manager <==> a == "manager"@,
        command_for(Some(a)) is Unknown <==> !asks_for_help(a) && !names_a_mode(a),
        command_for(Some(a)) matches CommandView::Unknown(x) ==> x == a,
{
    reveal_strlit("ask");
    reveal_strlit("chat");
    reveal_strlit("tools");
    reveal_strlit("agent");
    reveal_strlit("crew");
    reveal_strlit("manager");
    reveal_strlit("help");
    reveal_strlit("-h");
    reveal_strlit("--help");
    assert("ask"@.len() == 3);
    assert("chat"@.len() == 4);
    assert("tools"@.len() == 5);
    assert("agent"@.len() == 5);
    assert("crew"@.len() == 4);
    assert("manager"@.len() == 7);
    assert("help"@.len() == 4);
    assert("-h"@.len() == 2);
    assert("--help"@.len() == 6);
    assert("chat"@[1] != "crew"@[1]);
    assert("chat"@[0] != "help"@[0]);
    assert("tools"@[0] != "agent"@[0]);
    assert("crew"@[0] != "help"@[0]);
    if asks_for_help(a) {
        assert(!names_a_mode(a));
    }
}

} // verus!
