use vulcano::crew::{build_instruction, Agent, Crew, CrewRun};
use vulcano::skills::{addendum, compose, fallback_name, load, parse, skill_source, sort_by_name, Skill, SkillSource};
use vulcano::tools::Registry;

fn skill(name: &str, description: &str, body: &str) -> Skill {
    Skill { name: name.into(), description: description.into(), body: body.into() }
}

#[test]
fn instruction_with_and_without_context() {
    assert_eq!(build_instruction("doc", "pesquise", ""), "Objetivo geral: doc\n\nSua tarefa: pesquise");
    assert_eq!(
        build_instruction("doc", "escreva", "\n--- Resultado de A ---\nx\n"),
        "Objetivo geral: doc\n\nSua tarefa: escreva\n\nContexto do trabalho já feito:\n\n--- Resultado de A ---\nx\n"
    );
}

#[test]
fn agent_builders() {
    let a: Agent<u8> = Agent::new("Redator", "escreve");
    assert_eq!(a.role, "Redator");
    assert_eq!(a.max_steps, 12);
    assert!(a.registry.is_empty());
    let a = a.with_max_steps(3).with_tools(Registry::new());
    assert_eq!(a.max_steps, 3);
    let l = a.start("tarefa");
    assert_eq!(l.messages().len(), 2);
    assert_eq!(l.messages()[0].text(), "escreve");
    assert_eq!(l.messages()[1].text(), "tarefa");
}

#[test]
fn pipeline_passes_outputs_on() {
    let crew: Crew<u8> = Crew::new()
        .step(Agent::new("A", "pa"), "t1")
        .step(Agent::new("B", "pb"), "t2");
    assert_eq!(crew.len(), 2);
    assert_eq!(crew.agent(1).role, "B");
    let mut run = CrewRun::new();
    let (i, instr) = run.next_step(&crew, "obj").unwrap();
    assert_eq!(i, 0);
    assert_eq!(instr, "Objetivo geral: obj\n\nSua tarefa: t1");
    run.record("A", "achados".to_string());
    let (i, instr) = run.next_step(&crew, "obj").unwrap();
    assert_eq!(i, 1);
    assert_eq!(
        instr,
        "Objetivo geral: obj\n\nSua tarefa: t2\n\nContexto do trabalho já feito:\n\n--- Resultado de A ---\nachados\n"
    );
    run.record("B", "texto".to_string());
    assert!(run.next_step(&crew, "obj").is_none());
    assert_eq!(run.output(), "texto");
}

#[test]
fn empty_pipeline_gives_empty_output() {
    let crew: Crew<u8> = Crew::new();
    let run = CrewRun::new();
    assert!(run.next_step(&crew, "x").is_none());
    assert_eq!(run.output(), "");
}

#[test]
fn skill_with_front_matter() {
    let s = parse("---\nname: revisor-pt\ndescription: \"revisa texto\"\n---\n\nCorpo aqui.\n", "arquivo");
    assert_eq!(s.name, "revisor-pt");
    assert_eq!(s.description, "revisa texto");
    assert_eq!(s.body, "Corpo aqui.");
}

#[test]
fn skill_without_front_matter() {
    let s = parse("  só o corpo \n", "conciso");
    assert_eq!(s.name, "conciso");
    assert_eq!(s.description, "");
    assert_eq!(s.body, "só o corpo");
    let t = parse("---\nname: x\nsem fim", "f");
    assert_eq!(t.name, "f");
    assert_eq!(t.body, "---\nname: x\nsem fim");
}

#[test]
fn later_front_matter_line_wins() {
    let s = parse("---\nname: a\nname: b\nautor: eu\n---corpo", "f");
    assert_eq!(s.name, "b");
    assert_eq!(s.body, "corpo");
}

#[test]
fn addendum_and_compose() {
    let skills = vec![skill("a", "desc", "corpo a"), skill("b", "", "corpo b")];
    assert_eq!(addendum(&skills), "\n\n# Skill: a\ndesc\n\ncorpo a\n\n# Skill: b\ncorpo b");
    assert_eq!(compose("base", &skills[1..]), "base\n\n# Skill: b\ncorpo b");
    assert_eq!(compose("base", &[]), "base");
}

#[test]
fn load_by_name_ignoring_ascii_case() {
    let avail = vec![skill("Conciso", "", "c"), skill("revisor", "", "r")];
    let names = vec!["REVISOR".to_string(), "conciso".to_string()];
    let got = load(&names, &avail, "/cfg/skills").unwrap();
    assert_eq!(got.len(), 2);
    assert_eq!(got[0].name, "revisor");
    assert_eq!(got[1].name, "Conciso");
    assert!(load(&[], &[], "/d").unwrap().is_empty());
}

#[test]
fn load_reports_missing_skill() {
    let avail = vec![skill("a", "", "")];
    let names = vec!["a".to_string(), "zz".to_string(), "yy".to_string()];
    match load(&names, &avail, "/cfg/skills") {
        Err(e) => assert_eq!(e, "skill 'zz' não encontrada em /cfg/skills"),
        Ok(_) => panic!("expected an error"),
    }
}

#[test]
fn skills_sorted_by_name() {
    let v = vec![skill("b", "", "1"), skill("a", "", "2"), skill("b", "", "3"), skill("B", "", "4")];
    let s = sort_by_name(v);
    let names: Vec<&str> = s.iter().map(|k| k.name.as_str()).collect();
    assert_eq!(names, vec!["B", "a", "b", "b"]);
    assert_eq!(s[2].body, "1");
    assert_eq!(s[3].body, "3");
}

#[test]
fn addendum_of_joined_lists_is_joined() {
    let a = vec![skill("a", "d", "x")];
    let b = vec![skill("b", "", "y"), skill("c", "e", "z")];
    let mut ab = vec![skill("a", "d", "x")];
    ab.extend(vec![skill("b", "", "y"), skill("c", "e", "z")]);
    assert_eq!(addendum(&ab), format!("{}{}", addendum(&a), addendum(&b)));
}

#[test]
fn which_entries_are_skills() {
    assert!(matches!(skill_source(true, None), SkillSource::Folder));
    assert!(matches!(skill_source(false, Some("md")), SkillSource::File));
    assert!(matches!(skill_source(false, Some("MD")), SkillSource::NotASkill));
    assert!(matches!(skill_source(false, None), SkillSource::NotASkill));
    assert_eq!(fallback_name(Some("conciso")), "conciso");
    assert_eq!(fallback_name(None), "skill");
}

#[test]
fn a_new_run_has_empty_context_and_output() {
    let crew: Crew<u8> = Crew::new().step(Agent::new("A", "p"), "t");
    let run = CrewRun::new();
    let (_, instr) = run.next_step(&crew, "o").unwrap();
    assert_eq!(instr, "Objetivo geral: o\n\nSua tarefa: t");
}
