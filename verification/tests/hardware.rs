use membank::component::{Component, MemoryBank};
use membank::emit::EmitUnsupported;
use membank::layout::{MemoryLayout, TopLevelMemoryLayout};
use membank::routing::{
    SequenceRoutingProg, TerminalRoutingProgram, TopLevelRoutingProgram,
};
use membank::synth::{lift_solution, LiftError, SmtProblem};
use membank::trace::Trace;

fn range(start: usize, finish: usize, stride: usize) -> MemoryLayout {
    MemoryLayout::Range {
        start,
        finish,
        stride,
    }
}

fn single_bank(t: TerminalRoutingProgram, m: MemoryLayout) -> MemoryBank {
    MemoryBank::new(
        TopLevelRoutingProgram::Prog(SequenceRoutingProg::Prog(t)),
        TopLevelMemoryLayout::new(vec![m]),
    )
}

#[test]
fn emit_renders_a_noop_bank() {
    let bank = single_bank(TerminalRoutingProgram::Noop, range(0, 4, 1));
    let comp = Component::from_parse(4, 8, vec![bank]);
    let text = comp.emit_calyx_comp().unwrap();
    assert!(text.contains("import \"primitives/core.futil\";"));
    assert!(text.contains("component mem_4_1(bank_0_addr:2) -> (read_bank_0_addr:8)"));
    assert!(text.contains("@external bank_0 = std_mem_d1(8, 4, 2);"));
    assert!(text.contains("bank_0.addr0 = bank_0_addr;"));
    assert!(text.contains("read_bank_0_addr = bank_0.read_data;"));
}

#[test]
fn emit_renders_a_shift_datapath() {
    let bank = single_bank(TerminalRoutingProgram::RShift(1), range(0, 8, 2));
    let comp = Component::from_parse(8, 8, vec![bank]);
    let text = comp.emit_calyx_comp().unwrap();
    assert!(text.contains("rsh_0 = std_rsh(3);"));
    assert!(text.contains("rsh_0.left = bank_0_addr;"));
    assert!(text.contains("rsh_0.right = 3'd1;"));
    assert!(text.contains("bank_0.addr0 = rsh_0.out;"));
}

#[test]
fn emit_renders_subtraction_both_ways() {
    let b0 = single_bank(TerminalRoutingProgram::SubPortVal(4), range(4, 8, 1));
    let b1 = single_bank(TerminalRoutingProgram::SubValPort(7), range(0, 4, 1));
    let comp = Component::from_parse(8, 8, vec![b0, b1]);
    let text = comp.emit_calyx_comp().unwrap();
    assert!(text.contains("sub_0.left = bank_0_addr;"));
    assert!(text.contains("sub_0.right = 3'd4;"));
    assert!(text.contains("sub_1.right = bank_1_addr;"));
    assert!(text.contains("sub_1.left = 3'd7;"));
    assert!(text.contains("bank_0_addr:3, bank_1_addr:3"));
    assert!(text.contains("read_bank_0_addr:8, read_bank_1_addr:8"));
}

#[test]
fn emit_refuses_constant_routing() {
    let bank = single_bank(TerminalRoutingProgram::Constant(0), range(0, 4, 1));
    let comp = Component::from_parse(4, 8, vec![bank]);
    assert_eq!(comp.emit_calyx_comp(), Err(EmitUnsupported));
}

#[test]
fn emit_refuses_sequence_routing() {
    let bank = MemoryBank::new(
        TopLevelRoutingProgram::Prog(SequenceRoutingProg::Sequence(vec![
            TerminalRoutingProgram::Noop,
        ])),
        TopLevelMemoryLayout::new(vec![range(0, 4, 1)]),
    );
    let comp = Component::from_parse(4, 8, vec![bank]);
    assert_eq!(comp.emit_calyx_comp(), Err(EmitUnsupported));
}

#[test]
fn encode_problem_lists_requests_in_order() {
    let t = Trace::new(
        4,
        8,
        vec![vec![Some(0), None], vec![None, Some(2)], vec![Some(1), Some(3)]],
    );
    let p = SmtProblem::encode_problem(&t);
    assert_eq!(p.size, 4);
    assert_eq!(p.width, 8);
    assert_eq!(p.address_bits, 2);
    assert_eq!(p.port_count, 2);
    assert_eq!(p.requests, vec![(0, 0), (1, 2), (0, 1), (1, 3)]);
}

#[test]
fn encode_problem_of_a_conflicting_trace() {
    let t = Trace::new(2, 8, vec![vec![Some(0), Some(0)]]);
    let p = SmtProblem::encode_problem(&t);
    assert_eq!(p.port_count, 2);
    assert_eq!(p.requests, vec![(0, 0), (1, 0)]);
}

#[test]
fn lift_accepts_a_solution_that_serves_the_trace() {
    let t = Trace::new(4, 8, vec![vec![Some(0)], vec![Some(1)], vec![Some(2)], vec![Some(3)]]);
    let texts = vec![("[0x0:0x4:0x1]".to_string(), "NOOP".to_string())];
    let comp = lift_solution(&t, &texts).unwrap();
    assert!(comp.vailidate(&t));
    assert_eq!(comp.size, 4);
    assert_eq!(comp.banks.len(), 1);
}

#[test]
fn lift_rejects_a_solution_that_misses_a_request() {
    let t = Trace::new(4, 8, vec![vec![Some(0)], vec![Some(3)]]);
    let texts = vec![("[0x0:0x2:0x1]".to_string(), "NOOP".to_string())];
    assert_eq!(lift_solution(&t, &texts), Err(LiftError::Unserved));
}

#[test]
fn lift_rejects_a_partition_past_the_memory() {
    let t = Trace::new(4, 8, vec![vec![Some(0)], vec![Some(1)]]);
    let texts = vec![("[0x0:0x8:0x1]".to_string(), "NOOP".to_string())];
    assert_eq!(lift_solution(&t, &texts), Err(LiftError::OutOfBounds));
}

#[test]
fn lift_reports_the_first_failing_pair() {
    let t = Trace::new(4, 8, vec![vec![Some(0), Some(1)]]);
    let texts = vec![
        ("[0x0:0x4:0x1]".to_string(), "NOOP".to_string()),
        ("nonsense".to_string(), "NOOP".to_string()),
    ];
    match lift_solution(&t, &texts) {
        Err(LiftError::Parse(e)) => assert_eq!(e.position, 0),
        other => panic!("expected a parse failure, got {:?}", other),
    }
    let texts = vec![("[0x0:0x4:0x1]".to_string(), "NOOP NOOP".to_string())];
    match lift_solution(&t, &texts) {
        Err(LiftError::Parse(e)) => assert_eq!(e.position, 5),
        other => panic!("expected a parse failure, got {:?}", other),
    }
}

#[test]
fn lift_pins_the_banks_to_the_texts() {
    let t = Trace::new(8, 8, vec![vec![Some(0), Some(1)], vec![Some(2), Some(3)]]);
    let texts = vec![
        ("[0x0:0x8:0x2]".to_string(), "INPUT >> 0x1".to_string()),
        ("[0x1:0x8:0x2]".to_string(), "INPUT >> 0x1".to_string()),
    ];
    let comp = lift_solution(&t, &texts).unwrap();
    assert_eq!(comp.banks.len(), 2);
    assert_eq!(
        comp.banks[0].memory_layout,
        membank::layout::TopLevelMemoryLayout::new(vec![range(0, 8, 2)])
    );
    assert_eq!(
        comp.banks[1].memory_layout,
        membank::layout::TopLevelMemoryLayout::new(vec![range(1, 8, 2)])
    );
    assert_eq!(comp.banks[0].size(), 4);
    assert_eq!(comp.banks[1].size(), 4);
}

#[test]
fn lift_rejects_unreadable_text() {
    let t = Trace::new(4, 8, vec![vec![Some(0)]]);
    let texts = vec![("nonsense".to_string(), "NOOP".to_string())];
    match lift_solution(&t, &texts) {
        Err(LiftError::Parse(_)) => {}
        other => panic!("expected a parse failure, got {:?}", other),
    }
}
