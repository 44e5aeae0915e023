//! Agents with roles, and pipelines of them.
//!
//! An [`Agent`] is a packaged tool-using run: a persona (system prompt), its
//! tools and its step limit. A [`Crew`] runs several in order, giving each the
//! outputs of those before it as context; [`CrewRun`] is that pipeline's state.

use vstd::prelude::*;
use crate::message::{Message, messages_view, plain};
use crate::tools::{Registry, ToolLoop};

verus! {

broadcast use vstd::string::group_string_axioms;

/// An agent: role, persona, tools and step limit.
pub struct Agent<H> {
    pub role: &'static str,
    pub system_prompt: String,
    pub registry: Registry<H>,
    pub max_steps: usize,
}

impl<H> Agent<H> {
    /// An agent with no tools and a limit of 12 steps.
    pub fn new(role: &'static str, system_prompt: &str) -> (a: Agent<H>)
        ensures
            a.role@ == role@,
            a.system_prompt@ == system_prompt@,
            a.registry.entries().len() == 0,
            a.max_steps == 12,
    {
        Agent { role, system_prompt: system_prompt.to_string(), registry: Registry::new(), max_steps: 12 }
    }

    /// The same agent with the tools of `registry`.
    pub fn with_tools(self, registry: Registry<H>) -> (a: Agent<H>)
        ensures
            a.role == self.role,
            a.system_prompt@ == self.system_prompt@,
            a.registry == registry,
            a.max_steps == self.max_steps,
    {
        Agent { role: self.role, system_prompt: self.system_prompt, registry, max_steps: self.max_steps }
    }

    /// The same agent with a limit of `n` steps.
    pub fn with_max_steps(self, n: usize) -> (a: Agent<H>)
        ensures
            a.role == self.role,
            a.system_prompt@ == self.system_prompt@,
            a.registry == self.registry,
            a.max_steps == n,
    {
        Agent { role: self.role, system_prompt: self.system_prompt, registry: self.registry, max_steps: n }
    }

    /// The tool loop that runs `instruction` on its own: the agent's persona,
    /// then the instruction, within the agent's step limit.
    pub fn start(&self, instruction: &str) -> (l: ToolLoop)
        ensures
            l.log() == seq![plain("system"@, self.system_prompt@), plain("user"@, instruction@)],
            l.max_steps() == self.max_steps,
            l.steps() == 0,
            l.answered() == 0,
            l.pending().len() == 0,
            !l.finished(),
    {
        let mut messages: Vec<Message> = Vec::new();
        messages.push(Message::system(self.system_prompt.as_str()));
        messages.push(Message::user(instruction));
        assert(messages_view(messages@) =~= seq![
            plain("system"@, self.system_prompt@),
            plain("user"@, instruction@),
        ]);
        ToolLoop::new(messages, self.max_steps)
    }
}

/// The instruction for a step: the overall objective, the step's task and,
/// when there is any, the work already done.
pub open spec fn instruction_text(objective: Seq<char>, task: Seq<char>, context: Seq<char>) -> Seq<
    char,
> {
    let head = "Objetivo geral: "@ + objective + "\n\nSua tarefa: "@ + task;
    if context.len() > 0 {
        head + "\n\nContexto do trabalho já feito:\n"@ + context
    } else {
        head
    }
}

/// The instruction for a step of a pipeline.
pub fn build_instruction(objective: &str, task: &str, context: &str) -> (r: String)
    ensures
        r@ == instruction_text(objective@, task@, context@),
{
    let mut s = "Objetivo geral: ".to_string();
    s.append(objective);
    s.append("\n\nSua tarefa: ");
    s.append(task);
    if !context.is_empty() {
        s.append("\n\nContexto do trabalho já feito:\n");
        s.append(context);
    }
    s
}

/// How a step's output is passed on to the later steps.
pub open spec fn result_block(role: Seq<char>, output: Seq<char>) -> Seq<char> {
    "\n--- Resultado de "@ + role + " ---\n"@ + output + "\n"@
}

/// The context after the steps that produced `outputs` (role, output), in order.
pub open spec fn context_of(outputs: Seq<(Seq<char>, Seq<char>)>) -> Seq<char>
    decreases outputs.len(),
{
    if outputs.len() == 0 {
        Seq::empty()
    } else {
        context_of(outputs.drop_last()) + result_block(outputs.last().0, outputs.last().1)
    }
}

struct Step<H> {
    agent: Agent<H>,
    task: String,
}

/// A fixed pipeline of steps; each step's output becomes context for the next.
pub struct Crew<H> {
    steps: Vec<Step<H>>,
}

impl<H> Crew<H> {
    /// The roles of the steps, in order.
    pub closed spec fn roles(&self) -> Seq<Seq<char>> {
        self.steps@.map_values(|s: Step<H>| s.agent.role@)
    }

    /// The tasks of the steps, in order.
    pub closed spec fn tasks(&self) -> Seq<Seq<char>> {
        self.steps@.map_values(|s: Step<H>| s.task@)
    }

    /// The agents of the steps, in order.
    pub closed spec fn agents(&self) -> Seq<Agent<H>> {
        self.steps@.map_values(|s: Step<H>| s.agent)
    }

    /// An empty pipeline.
    pub fn new() -> (c: Crew<H>)
        ensures
            c.agents().len() == 0,
            c.roles().len() == 0,
            c.tasks().len() == 0,
    {
        Crew { steps: Vec::new() }
    }

    /// The pipeline with one more step: `agent` doing `task`.
    pub fn step(self, agent: Agent<H>, task: &str) -> (c: Crew<H>)
        ensures
            c.roles() == self.roles().push(agent.role@),
            c.tasks() == self.tasks().push(task@),
            c.agents() == self.agents().push(agent),
    {
        let mut steps = self.steps;
        let ghost before = steps@;
        let ghost ag = agent;
        steps.push(Step { agent, task: task.to_string() });
        let c = Crew { steps };
        assert(c.roles() =~= before.map_values(|s: Step<H>| s.agent.role@).push(ag.role@));
        assert(c.tasks() =~= before.map_values(|s: Step<H>| s.task@).push(task@));
        assert(c.agents() =~= before.map_values(|s: Step<H>| s.agent).push(ag));
        c
    }

    /// The number of steps.
    pub fn len(&self) -> (n: usize)
        ensures
            n == self.agents().len(),
    {
        self.steps.len()
    }

    /// The agent of step `i`.
    pub fn agent(&self, i: usize) -> (a: &Agent<H>)
        requires
            i < self.agents().len(),
        ensures
            *a == self.agents()[i as int],
    {
        &self.steps[i].agent
    }
}

/// A pipeline run in progress.
pub struct CrewRun {
    next: usize,
    context: String,
    last: String,
    done: Ghost<Seq<(Seq<char>, Seq<char>)>>,
}

impl CrewRun {
    /// The (role, output) of the steps done, in order.
    pub closed spec fn outputs(&self) -> Seq<(Seq<char>, Seq<char>)> {
        self.done@
    }

    /// The context handed to the next step.
    pub closed spec fn context(&self) -> Seq<char> {
        self.context@
    }

    /// The output of the last step done (empty before any).
    pub closed spec fn last(&self) -> Seq<char> {
        self.last@
    }

    /// How many steps are done.
    pub closed spec fn next(&self) -> nat {
        self.next as nat
    }

    /// The context is made of the outputs in order, and the last output is the
    /// last step's.
    pub closed spec fn consistent(&self) -> bool {
        &&& self.next == self.done@.len()
        &&& self.context@ == context_of(self.done@)
        &&& self.last@ == if self.done@.len() == 0 {
            Seq::<char>::empty()
        } else {
            self.done@.last().1
        }
    }

    /// Nothing done yet.
    pub fn new() -> (r: CrewRun)
        ensures
            r.outputs().len() == 0,
            r.next() == 0,
            r.context() == Seq::<char>::empty(),
            r.last() == Seq::<char>::empty(),
            r.consistent(),
    {
        CrewRun {
            next: 0,
            context: String::new(),
            last: String::new(),
            done: Ghost(Seq::empty()),
        }
    }

    /// The next step of `crew` and its instruction, or `None` when all are done.
    pub fn next_step<H>(&self, crew: &Crew<H>, objective: &str) -> (r: Option<(usize, String)>)
        requires
            self.consistent(),
        ensures
            self.next() < crew.agents().len() ==> (r matches Some((i, instr)) && i == self.next()
                && instr@ == instruction_text(objective@, crew.tasks()[i as int], self.context())),
            self.next() >= crew.agents().len() ==> r is None,
    {
        if self.next < crew.steps.len() {
            let instr = build_instruction(
                objective,
                crew.steps[self.next].task.as_str(),
                self.context.as_str(),
            );
            Some((self.next, instr))
        } else {
            None
        }
    }

    /// Records `output` of the step done by `role`.
    pub fn record(&mut self, role: &str, output: String)
        requires
            old(self).consistent(),
            old(self).next() < usize::MAX,
        ensures
            final(self).consistent(),
            final(self).outputs() == old(self).outputs().push((role@, output@)),
            final(self).next() == old(self).next() + 1,
            final(self).context() == old(self).context() + result_block(role@, output@),
            final(self).last() == output@,
    {
        let ghost prev = self.done@;
        self.context.append("\n--- Resultado de ");
        self.context.append(role);
        self.context.append(" ---\n");
        self.context.append(output.as_str());
        self.context.append("\n");
        self.last = output;
        self.next = self.next + 1;
        self.done = Ghost(prev.push((role@, self.last@)));
        assert(self.done@.drop_last() =~= prev);
        assert(self.context@ =~= context_of(prev) + result_block(role@, self.last@));
    }

    /// The output of the pipeline: the last step's output.
    pub fn output(self) -> (r: String)
        ensures
            r@ == self.last(),
    {
        self.last
    }
}


/// The context after a pipeline is the context after its first part followed
/// by the blocks of the rest: every step sees all earlier outputs, in order.
pub proof fn law_context_accumulates(
    a: Seq<(Seq<char>, Seq<char>)>,
    b: Seq<(Seq<char>, Seq<char>)>,
)
    ensures
        context_of(a + b) == context_of(a) + context_of(b),
    decreases b.len(),
{
    if b.len() == 0 {
        assert(a + b =~= a);
        assert(context_of(a) + Seq::<char>::empty() =~= context_of(a));
    } else {
        law_context_accumulates(a, b.drop_last());
        assert((a + b).drop_last() =~= a + b.drop_last());
        assert((a + b).last() == b.last());
    }
}

} // verus!
