//! The roles of the agent modes: the personas, the fixed pipeline of the
//! `crew` mode, and the delegation rules of the `manager` mode, whose manager
//! picks at run time which member does what.

use vstd::prelude::*;
use crate::crew::{Agent, Crew};
use crate::text::{eq_ignore_ascii_case, join, join_strings, str_eq_ignore_ascii_case, views};
use crate::tools::Registry;

verus! {

broadcast use vstd::string::group_string_axioms;

/// The system prompt of the `tools` mode.
pub const TOOLS_SYSTEM_PROMPT: &'static str = "Você é um assistente que usa as ferramentas disponíveis quando elas ajudam. Responda em português.";

/// The system prompt of the `agent` mode.
pub const AGENT_SYSTEM_PROMPT: &'static str = "Você é um agente autônomo rodando na máquina do usuário. Cumpra a tarefa usando as ferramentas, um passo de cada vez, sem pedir confirmação. Ao terminar, responda em texto com um resumo curto do que foi feito e não chame mais nenhuma ferramenta. Responda em português.";

/// The step limit of the `agent` mode.
pub const AGENT_MAX_STEPS: usize = 16;

/// The system prompt of the manager in the `manager` mode.
pub const MANAGER_SYSTEM_PROMPT: &'static str = "Você é um gerente de projeto. Você NÃO faz o trabalho: quebra o objetivo em tarefas e delega cada uma ao membro certo com a ferramenta `delegar`. Fluxo usual: Pesquisador (levanta fatos) -> Redator (escreve) -> Revisor (revisa). Ao delegar, passe uma instrução completa e autossuficiente, incluindo o que os membros anteriores já produziram. Se o resultado vier ruim, delegue de novo com correções. Quando tiver a versão final do Revisor, responda com ela e pare. Responda em português.";

/// The name of the manager's only tool, which hands a task to a member.
pub const DELEGATE_TOOL: &'static str = "delegar";

/// The step limit of the manager.
pub const MANAGER_MAX_STEPS: usize = 14;

/// The researcher's persona.
pub const RESEARCHER_PROMPT: &'static str = "Você investiga o código e reúne fatos. Use as ferramentas para ler arquivos e rodar comandos; não altere nada. Entregue uma lista objetiva de achados. Responda em português.";

/// The writer's persona.
pub const WRITER_PROMPT: &'static str = "Você escreve texto claro e direto a partir dos achados recebidos. Não invente o que não estiver no contexto. Responda em português.";

/// The proofreader's persona.
pub const PROOFREADER_PROMPT: &'static str = "Você revisa e enxuga o texto recebido: corrige imprecisões e corta repetição. Devolva só a versão final. Responda em português.";

/// The researcher: reads and runs commands with `tools`, within 16 steps.
pub fn researcher<H>(tools: Registry<H>) -> (a: Agent<H>)
    ensures
        a.role@ == "Pesquisador"@,
        a.system_prompt@ == RESEARCHER_PROMPT@,
        a.registry == tools,
        a.max_steps == 16,
{
    Agent::new("Pesquisador", RESEARCHER_PROMPT).with_tools(tools).with_max_steps(16)
}

/// The writer: no tools, 12 steps.
pub fn writer<H>() -> (a: Agent<H>)
    ensures
        a.role@ == "Redator"@,
        a.system_prompt@ == WRITER_PROMPT@,
        a.registry.entries().len() == 0,
        a.max_steps == 12,
{
    Agent::new("Redator", WRITER_PROMPT)
}

/// The proofreader: no tools, 12 steps.
pub fn proofreader<H>() -> (a: Agent<H>)
    ensures
        a.role@ == "Revisor"@,
        a.system_prompt@ == PROOFREADER_PROMPT@,
        a.registry.entries().len() == 0,
        a.max_steps == 12,
{
    Agent::new("Revisor", PROOFREADER_PROMPT)
}

/// The fixed pipeline of the `crew` mode: researcher, writer, proofreader.
pub fn standard_crew<H>(research_tools: Registry<H>) -> (c: Crew<H>)
    ensures
        c.roles() == seq!["Pesquisador"@, "Redator"@, "Revisor"@],
        c.tasks() == seq![
            "Levante os fatos necessários para cumprir o objetivo."@,
            "Escreva o material pedido no objetivo, usando os achados do Pesquisador."@,
            "Revise o texto do Redator e entregue a versão final."@,
        ],
        c.agents().len() == 3,
        c.agents()[0].system_prompt@ == RESEARCHER_PROMPT@,
        c.agents()[0].registry == research_tools,
        c.agents()[0].max_steps == 16,
        c.agents()[1].system_prompt@ == WRITER_PROMPT@,
        c.agents()[1].registry.entries().len() == 0,
        c.agents()[1].max_steps == 12,
        c.agents()[2].system_prompt@ == PROOFREADER_PROMPT@,
        c.agents()[2].registry.entries().len() == 0,
        c.agents()[2].max_steps == 12,
{
    let c = Crew::new()
        .step(researcher(research_tools), "Levante os fatos necessários para cumprir o objetivo.")
        .step(
            writer(),
            "Escreva o material pedido no objetivo, usando os achados do Pesquisador.",
        )
        .step(proofreader(), "Revise o texto do Redator e entregue a versão final.");
    assert(c.roles() =~= seq!["Pesquisador"@, "Redator"@, "Revisor"@]);
    assert(c.tasks() =~= seq![
        "Levante os fatos necessários para cumprir o objetivo."@,
        "Escreva o material pedido no objetivo, usando os achados do Pesquisador."@,
        "Revise o texto do Redator e entregue a versão final."@,
    ]);
    c
}

/// The team of the `manager` mode: researcher, writer, proofreader.
pub fn build_team<H>(research_tools: Registry<H>) -> (t: Vec<Agent<H>>)
    ensures
        roles_of(t@) == seq!["Pesquisador"@, "Redator"@, "Revisor"@],
        t@.len() == 3,
        t@[0].system_prompt@ == RESEARCHER_PROMPT@,
        t@[0].registry == research_tools,
        t@[0].max_steps == 16,
        t@[1].system_prompt@ == WRITER_PROMPT@,
        t@[1].registry.entries().len() == 0,
        t@[1].max_steps == 12,
        t@[2].system_prompt@ == PROOFREADER_PROMPT@,
        t@[2].registry.entries().len() == 0,
        t@[2].max_steps == 12,
{
    let mut t: Vec<Agent<H>> = Vec::new();
    t.push(researcher(research_tools));
    t.push(writer());
    t.push(proofreader());
    assert(roles_of(t@) =~= seq!["Pesquisador"@, "Redator"@, "Revisor"@]);
    t
}

/// The roles of a team, in order.
pub open spec fn roles_of<H>(team: Seq<Agent<H>>) -> Seq<Seq<char>> {
    team.map_values(|a: Agent<H>| a.role@)
}

/// The roles of a team, in order.
pub fn roles<H>(team: &[Agent<H>]) -> (r: Vec<String>)
    ensures
        views(r@) == roles_of(team@),
{
    let mut r: Vec<String> = Vec::new();
    let mut i: usize = 0;
    while i < team.len()
        invariant
            i <= team@.len(),
            r@.len() == i,
            forall|j: int| 0 <= j < i ==> (#[trigger] r@[j])@ == team@[j].role@,
        decreases team.len() - i,
    {
        r.push(team[i].role.to_string());
        i += 1;
    }
    assert(views(r@) =~= roles_of(team@));
    r
}

/// The description of the `delegar` tool, naming the members.
pub open spec fn delegate_description_text(roles: Seq<Seq<char>>) -> Seq<char> {
    "Entrega uma tarefa a um membro da equipe ("@ + join(roles, ", "@)
        + ") e devolve o resultado dele."@
}

/// The description of the `delegar` tool for `team`.
pub fn delegate_description<H>(team: &[Agent<H>]) -> (r: String)
    ensures
        r@ == delegate_description_text(roles_of(team@)),
{
    let names = roles(team);
    let joined = join_strings(names.as_slice(), ", ");
    let mut r = "Entrega uma tarefa a um membro da equipe (".to_string();
    r.append(joined.as_str());
    r.append(") e devolve o resultado dele.");
    r
}

/// Position of the first member whose role is `member` up to ASCII case.
pub open spec fn member_named(roles: Seq<Seq<char>>, member: Seq<char>) -> Option<int>
    decreases roles.len(),
{
    if roles.len() == 0 {
        None
    } else if eq_ignore_ascii_case(roles[0], member) {
        Some(0)
    } else {
        match member_named(roles.drop_first(), member) {
            Some(i) => Some(i + 1),
            None => None,
        }
    }
}

/// The member of `team` that `member` names (roles compared up to ASCII case).
pub fn find_member<H>(team: &[Agent<H>], member: &str) -> (r: Option<usize>)
    ensures
        member_named(roles_of(team@), member@) == match r {
            Some(i) => Some(i as int),
            None => None::<int>,
        },
        r matches Some(i) ==> i < team@.len() && eq_ignore_ascii_case(team@[i as int].role@, member@)
            && forall|j: int| 0 <= j < i ==> !eq_ignore_ascii_case(
            #[trigger] team@[j].role@,
            member@,
        ),
        r is None ==> forall|j: int|
            0 <= j < team@.len() ==> !eq_ignore_ascii_case(#[trigger] team@[j].role@, member@),
{
    let n = team.len();
    let mut i: usize = 0;
    let ghost rv = roles_of(team@);
    assert(rv.subrange(0, n as int) =~= rv);
    while i < n
        invariant
            i <= n == team@.len(),
            rv == roles_of(team@),
            match member_named(rv, member@) {
                Some(k) => match member_named(rv.subrange(i as int, n as int), member@) {
                    Some(m) => k == m + i,
                    None => false,
                },
                None => member_named(rv.subrange(i as int, n as int), member@) is None,
            },
        decreases n - i,
    {
        assert(rv.subrange(i as int, n as int)[0] == team@[i as int].role@);
        if str_eq_ignore_ascii_case(team[i].role, member) {
            proof {
                assert(member_named(rv, member@) == Some(i as int));
                lemma_member_named(rv, member@);
                assert forall|j: int| 0 <= j < team@.len() implies #[trigger] team@[j].role@
                    == rv[j] by {}
            }
            return Some(i);
        }
        assert(rv.subrange(i as int, n as int).drop_first() =~= rv.subrange(i + 1, n as int));
        i += 1;
    }
    proof {
        lemma_member_named(rv, member@);
        assert forall|j: int| 0 <= j < team@.len() implies #[trigger] team@[j].role@ == rv[j] by {}
    }
    None
}

/// What `format!("{:?}", s)` gives for a string (Rust's debug quoting).
pub uninterp spec fn debug_quoted(s: Seq<char>) -> Seq<char>;

/// `s` in Rust's debug form: std's `Debug` for `str`, through `format!("{:?}")`.
/// Stated: the text is `debug_quoted` of `s`, and nothing more (how quotes and
/// special characters are escaped is left to std).
#[verifier::external_body]
fn quote(s: &str) -> (r: String)
    ensures
        r@ == debug_quoted(s@),
{
    format!("{:?}", s)
}

/// The answer of the `delegar` tool for a member it does not know.
pub open spec fn unknown_member_text(quoted: Seq<char>, roles: Seq<Seq<char>>) -> Seq<char> {
    "membro desconhecido: "@ + quoted + ". Use um de: "@ + join(roles, ", "@)
}

/// The answer for an unknown member, given its name already quoted.
pub fn unknown_member_message<H>(quoted: &str, team: &[Agent<H>]) -> (r: String)
    ensures
        r@ == unknown_member_text(quoted@, roles_of(team@)),
{
    let names = roles(team);
    let joined = join_strings(names.as_slice(), ", ");
    let mut r = "membro desconhecido: ".to_string();
    r.append(quoted);
    r.append(". Use um de: ");
    r.append(joined.as_str());
    r
}

/// The answer for an unknown `member`.
pub fn unknown_member<H>(member: &str, team: &[Agent<H>]) -> (r: String)
    ensures
        r@ == unknown_member_text(debug_quoted(member@), roles_of(team@)),
{
    let q = quote(member);
    unknown_member_message(q.as_str(), team)
}

/// The member named is the first whose role equals the name up to ASCII case:
/// `member_named` gives `i` exactly when role `i` matches and no earlier one
/// does, and nothing exactly when no role matches.
pub proof fn law_member_is_first_match(roles: Seq<Seq<char>>, member: Seq<char>)
    ensures
        forall|i: int|
            member_named(roles, member) == Some(i) <==> (0 <= i < roles.len()
                && eq_ignore_ascii_case(#[trigger] roles[i], member) && forall|j: int|
                0 <= j < i ==> !eq_ignore_ascii_case(#[trigger] roles[j], member)),
        member_named(roles, member) is None <==> forall|j: int|
            0 <= j < roles.len() ==> !eq_ignore_ascii_case(#[trigger] roles[j], member),
{
    lemma_member_named(roles, member);
}

proof fn lemma_member_named(roles: Seq<Seq<char>>, member: Seq<char>)
    ensures
        match member_named(roles, member) {
            Some(i) => 0 <= i < roles.len() && eq_ignore_ascii_case(roles[i], member) && forall|
                j: int,
            | 0 <= j < i ==> !eq_ignore_ascii_case(#[trigger] roles[j], member),
            None => forall|j: int|
                0 <= j < roles.len() ==> !eq_ignore_ascii_case(#[trigger] roles[j], member),
        },
    decreases roles.len(),
{
    if roles.len() > 0 && !eq_ignore_ascii_case(roles[0], member) {
        let t = roles.drop_first();
        lemma_member_named(t, member);
        assert forall|j: int| 1 <= j < roles.len() implies #[trigger] roles[j] == t[j - 1] by {}
    }
}

/// A role always names its own member: a name equal to role `i`, with no
/// earlier role equal to it up to ASCII case, finds member `i`.
pub proof fn law_role_finds_its_member(roles: Seq<Seq<char>>, i: int)
    requires
        0 <= i < roles.len(),
        forall|j: int| 0 <= j < i ==> !eq_ignore_ascii_case(#[trigger] roles[j], roles[i]),
    ensures
        member_named(roles, roles[i]) == Some(i),
{
    law_member_is_first_match(roles, roles[i]);
    assert(eq_ignore_ascii_case(roles[i], roles[i]));
}

} // verus!
