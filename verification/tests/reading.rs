use membank::component::{Component, MemoryBank};
use membank::dsl::AstParser;
use membank::layout::{MemoryLayout, TopLevelMemoryLayout};
use membank::routing::{
    ComparisonOperator, Condition, SequenceRoutingProg, TerminalRoutingProgram,
    TopLevelRoutingProgram,
};

fn strip_ws(s: &str) -> String {
    s.chars().filter(|c| !c.is_whitespace()).collect()
}

fn range(start: usize, finish: usize, stride: usize) -> MemoryLayout {
    MemoryLayout::Range {
        start,
        finish,
        stride,
    }
}

#[test]
fn author_bank_round_trips_modulo_whitespace() {
    let text = "memory<8,8> { bank { layout: [0:8:2], translation: INPUT >> 1 } }";
    let comp = AstParser::parse_component(text).unwrap();
    let printed = comp.pretty_print();
    assert_eq!(strip_ws(&printed), strip_ws(text));
}

#[test]
fn printed_component_parses_back_to_itself() {
    let bank = MemoryBank::new(
        TopLevelRoutingProgram::Prog(SequenceRoutingProg::Prog(
            TerminalRoutingProgram::RShift(1),
        )),
        TopLevelMemoryLayout::new(vec![range(0, 8, 2)]),
    );
    let comp = Component::from_parse(8, 8, vec![bank]);
    let printed = comp.pretty_print();
    let reparsed = AstParser::parse_component(&printed).unwrap();
    assert_eq!(reparsed, comp);
}

#[test]
fn printed_multi_bank_component_parses_back() {
    let b0 = MemoryBank::new(
        TopLevelRoutingProgram::Prog(SequenceRoutingProg::Prog(TerminalRoutingProgram::Noop)),
        TopLevelMemoryLayout::new(vec![range(0, 4, 1)]),
    );
    let b1 = MemoryBank::new(
        TopLevelRoutingProgram::Prog(SequenceRoutingProg::Prog(
            TerminalRoutingProgram::SubPortVal(4),
        )),
        TopLevelMemoryLayout::new(vec![range(4, 8, 1), range(8, 12, 2)]),
    );
    let comp = Component::from_parse(8, 8, vec![b0, b1]);
    let printed = comp.pretty_print();
    let reparsed = AstParser::parse_component(&printed).unwrap();
    assert_eq!(reparsed, comp);
}

#[test]
fn printed_switch_component_parses_back() {
    let cases = vec![
        (
            Condition::ComparisonPortVal(4, ComparisonOperator::LessThan),
            SequenceRoutingProg::Prog(TerminalRoutingProgram::Noop),
        ),
        (
            Condition::And(
                Box::new(Condition::ComparisonValPort(2, ComparisonOperator::LessThanOrEqual)),
                Box::new(Condition::Not(Box::new(Condition::ComparisonPortVal(
                    9,
                    ComparisonOperator::Equal,
                )))),
            ),
            SequenceRoutingProg::Sequence(vec![
                TerminalRoutingProgram::Add(1),
                TerminalRoutingProgram::RShift(1),
            ]),
        ),
    ];
    let routing = TopLevelRoutingProgram::Switch(
        cases,
        Box::new(SequenceRoutingProg::Prog(TerminalRoutingProgram::SubValPort(7))),
    );
    let bank = MemoryBank::new(routing, TopLevelMemoryLayout::new(vec![range(0, 16, 1)]));
    let comp = Component::from_parse(16, 8, vec![bank]);
    let printed = comp.pretty_print();
    let reparsed = AstParser::parse_component(&printed).unwrap();
    assert_eq!(reparsed, comp);
}

#[test]
fn parse_accepts_stride_free_ranges() {
    let comp =
        AstParser::parse_component("memory<8,4> { bank { layout: [0:4], translation: NOOP } }")
            .unwrap();
    assert_eq!(comp.banks.len(), 1);
    assert_eq!(
        comp.banks[0].memory_layout,
        TopLevelMemoryLayout::new(vec![range(0, 4, 1)])
    );
}

#[test]
fn parse_partition_reads_hex_ranges() {
    let l = AstParser::parse_partition("[0x0:0x8:0x2]").unwrap();
    assert_eq!(l, TopLevelMemoryLayout::new(vec![range(0, 8, 2)]));
}

#[test]
fn parse_partition_reads_decimal_ranges() {
    let l = AstParser::parse_partition("[4:8:1]").unwrap();
    assert_eq!(l, TopLevelMemoryLayout::new(vec![range(4, 8, 1)]));
}

#[test]
fn parse_partition_reads_range_lists() {
    let l = AstParser::parse_partition("[[0:4:1], [8:12:2]]").unwrap();
    assert_eq!(
        l,
        TopLevelMemoryLayout::new(vec![range(0, 4, 1), range(8, 12, 2)])
    );
}

#[test]
fn parse_translation_reads_every_terminal() {
    let cases: Vec<(&str, TerminalRoutingProgram)> = vec![
        ("NOOP", TerminalRoutingProgram::Noop),
        ("INPUT >> 0x1", TerminalRoutingProgram::RShift(1)),
        ("INPUT >> 3", TerminalRoutingProgram::RShift(3)),
        ("INPUT + 0x4", TerminalRoutingProgram::Add(4)),
        ("INPUT - 4", TerminalRoutingProgram::SubPortVal(4)),
        ("0x9 - INPUT", TerminalRoutingProgram::SubValPort(9)),
        ("0x1f", TerminalRoutingProgram::Constant(31)),
        ("7", TerminalRoutingProgram::Constant(7)),
    ];
    for (text, expected) in cases {
        let prog = AstParser::parse_z3_address_translation(text).unwrap();
        assert_eq!(
            prog,
            TopLevelRoutingProgram::Prog(SequenceRoutingProg::Prog(expected)),
            "for input {:?}",
            text
        );
    }
}

#[test]
fn parse_rejects_empty_range() {
    assert!(AstParser::parse_partition("[5:3:1]").is_err());
    assert!(AstParser::parse_partition("[4:4:1]").is_err());
}

#[test]
fn parse_rejects_zero_stride() {
    assert!(AstParser::parse_partition("[0:4:0]").is_err());
}

#[test]
fn parse_rejects_trailing_garbage() {
    assert!(AstParser::parse_partition("[0:4:1] extra").is_err());
    assert!(AstParser::parse_z3_address_translation("NOOP NOOP").is_err());
}

#[test]
fn parse_error_carries_the_position() {
    let e = AstParser::parse_component("memory<8,8> ?").unwrap_err();
    assert_eq!(e.position, 12);
}

#[test]
fn parse_rejects_numbers_beyond_64_bits() {
    assert!(AstParser::parse_partition("[0:99999999999999999999:1]").is_err());
    let prog = AstParser::parse_z3_address_translation("INPUT + 18446744073709551615");
    assert!(prog.is_ok());
    assert!(AstParser::parse_z3_address_translation("INPUT + 18446744073709551616").is_err());
}

#[test]
fn parse_rejects_a_component_without_banks() {
    assert!(AstParser::parse_component("memory<8,8> { }").is_err());
}
