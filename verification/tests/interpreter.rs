use tura::lexer::Lexer;
use tura::machine::{Growth, Machine, MachineError};
use tura::parser::parse_rules;
use tura::rules::Rule;
use tura::symbol::Symbol;

fn symbols(names: &[&str]) -> Vec<Symbol> {
    names.iter().map(|n| Symbol::new(n)).collect()
}

fn rules_from(source: &str) -> Vec<Rule> {
    parse_rules(&mut Lexer::from_source(source)).unwrap()
}

fn tape_names(machine: &Machine) -> Vec<String> {
    machine.tape.iter().map(|s| s.name.clone()).collect()
}

/// Runs the driver loop, collecting each rendered block as (line, caret
/// column), until the machine halts or a step aborts.
fn run(machine: &mut Machine, rules: &Vec<Rule>) -> (Vec<(String, usize)>, Result<(), MachineError>) {
    let mut blocks = Vec::new();
    while !machine.halt {
        blocks.push(machine.render());
        machine.halt = true;
        if let Err(e) = machine.next(rules) {
            return (blocks, Err(e));
        }
    }
    (blocks, Ok(()))
}

#[test]
fn empty_tape_is_refused_at_construction() {
    assert!(Machine::new(Vec::new(), Growth::Fixed).is_err());
    assert!(Machine::from_tape(Vec::new()).is_err());
}

#[test]
fn construction_seeds_the_entry_state() {
    let machine = Machine::new(symbols(&["0"]), Growth::Fixed).unwrap();
    assert_eq!(machine.state.name, "Inc");
    assert_eq!(machine.head, 0);
    assert!(!machine.halt);
}

#[test]
fn first_matching_rule_wins_over_a_later_duplicate() {
    // Two rules with identical (state, read) and different effects: the
    // first in file order fires, the second never does.
    let rules = rules_from("Inc 0 first R A Inc 0 second R B");
    let mut machine = Machine::new(symbols(&["0", "0"]), Growth::Fixed).unwrap();
    machine.advance(&rules).unwrap();
    assert_eq!(tape_names(&machine), vec!["first", "0"]);
    assert_eq!(machine.state.name, "A");
}

#[test]
fn no_rule_matching_means_a_halting_noop() {
    let rules = rules_from("Other 0 1 R Other");
    let mut machine = Machine::new(symbols(&["0", "0"]), Growth::Fixed).unwrap();
    machine.halt = true;
    machine.next(&rules).unwrap();
    assert!(machine.halt);
    assert_eq!(tape_names(&machine), vec!["0", "0"]);
    assert_eq!(machine.state.name, "Inc");
    assert_eq!(machine.head, 0);
}

#[test]
fn moving_left_at_the_origin_is_fatal() {
    let rules = rules_from("Inc 1 0 L Inc");
    let mut machine = Machine::new(symbols(&["1", "1"]), Growth::Fixed).unwrap();
    let r = machine.advance(&rules);
    assert_eq!(r, Err(MachineError::OutOfBounds));
    // The write had already happened; the head did not wrap or clamp.
    assert_eq!(tape_names(&machine), vec!["0", "1"]);
    assert_eq!(machine.head, 0);
}

#[test]
fn moving_right_off_a_fixed_tape_is_fatal() {
    let rules = rules_from("Inc 1 1 R Inc");
    let mut machine = Machine::new(symbols(&["1"]), Growth::Fixed).unwrap();
    let r = machine.advance(&rules);
    assert_eq!(r, Err(MachineError::OutOfBounds));
    assert_eq!(machine.head, 0);
}

#[test]
fn stepping_right_at_the_last_index_appends_one_default() {
    let rules = rules_from("Inc b c R Done");
    let mut machine = Machine::new(symbols(&["b"]), Growth::AutoExtend(Symbol::new("f"))).unwrap();
    machine.advance(&rules).unwrap();
    assert_eq!(tape_names(&machine), vec!["c", "f"]);
    assert_eq!(machine.head, 1);
    assert_eq!(machine.state.name, "Done");
}

#[test]
fn growth_default_is_fixed_at_construction_time() {
    // The tape file's last symbol becomes the default. Rewriting the cell
    // that held it does not change what later growth appends.
    let machine = Machine::from_tape(symbols(&["a", "b"])).unwrap();
    match &machine.growth {
        Growth::AutoExtend(d) => assert_eq!(d.name, "b"),
        Growth::Fixed => panic!("expected an auto-extending tape"),
    }
    let rules = rules_from("Inc a a R S S b c R T");
    let mut machine = machine;
    machine.advance(&rules).unwrap();
    // Second step rewrites the last cell (the old "b") and grows.
    machine.advance(&rules).unwrap();
    assert_eq!(tape_names(&machine), vec!["a", "c", "b"]);
}

#[test]
fn render_places_the_caret_under_the_head() {
    // Symbols of different widths: the caret column is a character
    // offset, not the tape index.
    let mut machine = Machine::new(symbols(&["10", "1"]), Growth::Fixed).unwrap();
    machine.head = 1;
    let (line, column) = machine.render();
    assert_eq!(line, "Inc: 10 1 ");
    assert_eq!(column, 8);
    // Re-deriving the head cell from the caret column gives it back.
    let width = machine.tape[machine.head].name.chars().count();
    let at_caret: String = line.chars().skip(column).take(width).collect();
    assert_eq!(at_caret, machine.tape[machine.head].name);
}

#[test]
fn halting_run_prints_one_block_per_configuration_and_one_extra() {
    let rules = rules_from("Inc 1 2 R Fin");
    let mut machine = Machine::new(symbols(&["1", "1"]), Growth::Fixed).unwrap();
    let (blocks, outcome) = run(&mut machine, &rules);
    assert_eq!(outcome, Ok(()));
    // One block per fired step, and exactly one extra for the
    // configuration immediately preceding the halt.
    assert_eq!(
        blocks,
        vec![
            ("Inc: 1 1 ".to_string(), 5),
            ("Fin: 2 1 ".to_string(), 7),
        ]
    );
    assert!(machine.halt);
}

#[test]
fn the_example_program_is_deterministic_and_reproducible() {
    // The rule file `Inc 0 1 R Inc` / `Inc 1 0 L Inc` over the fixed tape
    // `1 1 0 1`: hand-simulation shows the first step matches the second
    // rule and moves left at the origin, so the run prints one block and
    // aborts. Two runs agree symbol for symbol.
    let source = "Inc 0 1 R Inc Inc 1 0 L Inc";
    let mut traces = Vec::new();
    for _ in 0..2 {
        let rules = rules_from(source);
        let mut machine =
            Machine::new(symbols(&["1", "1", "0", "1"]), Growth::Fixed).unwrap();
        let (blocks, outcome) = run(&mut machine, &rules);
        assert_eq!(outcome, Err(MachineError::OutOfBounds));
        assert_eq!(blocks, vec![("Inc: 1 1 0 1 ".to_string(), 5)]);
        assert_eq!(tape_names(&machine), vec!["0", "1", "0", "1"]);
        traces.push((blocks, tape_names(&machine), machine.state.name.clone()));
    }
    assert_eq!(traces[0], traces[1]);
}
