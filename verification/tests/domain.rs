use membank::component::{Component, MemoryBank};
use membank::layout::{MemoryLayout, TopLevelMemoryLayout};
use membank::routing::{
    ComparisonOperator, Condition, SequenceRoutingProg, TerminalRoutingProgram,
    TopLevelRoutingProgram,
};
use membank::trace::{bits_required, Trace};

fn noop_prog() -> TopLevelRoutingProgram {
    TopLevelRoutingProgram::Prog(SequenceRoutingProg::Prog(TerminalRoutingProgram::Noop))
}

fn terminal_prog(t: TerminalRoutingProgram) -> TopLevelRoutingProgram {
    TopLevelRoutingProgram::Prog(SequenceRoutingProg::Prog(t))
}

fn range(start: usize, finish: usize, stride: usize) -> MemoryLayout {
    MemoryLayout::Range {
        start,
        finish,
        stride,
    }
}

fn single_bank(t: TerminalRoutingProgram, m: MemoryLayout) -> MemoryBank {
    MemoryBank::new(terminal_prog(t), TopLevelMemoryLayout::new(vec![m]))
}

#[test]
fn layout_get_defined_iff_within_size() {
    let m = range(0, 8, 2);
    assert_eq!(m.size(), 4);
    for i in 0..4usize {
        assert!(m.get(&i).is_some());
    }
    assert!(m.get(&4).is_none());
    assert!(m.get(&100).is_none());
}

#[test]
fn layout_contains_every_generated_address() {
    let m = range(1, 8, 2);
    assert_eq!(m.size(), 4);
    for i in 0..4usize {
        let a = m.get(&i).unwrap();
        assert!(m._contains(&a));
    }
    assert!(!m._contains(&0));
    assert!(!m._contains(&2));
}

#[test]
fn layout_index_of_inverts_get() {
    let m = range(3, 20, 5);
    for i in 0..m.size() {
        let a = m.get(&i).unwrap();
        assert_eq!(m._index_of(&a), Some(i));
    }
}

#[test]
fn layout_gen_array_lists_the_progression() {
    let m = range(0, 7, 2);
    assert_eq!(m._gen_array(), vec![0, 2, 4, 6]);
    assert_eq!(m.size(), 4);
    assert_eq!(m._last_idx(), 3);
}

#[test]
fn top_level_layout_concatenates_ranges() {
    let l = TopLevelMemoryLayout::new(vec![range(0, 4, 1), range(8, 12, 1)]);
    assert_eq!(l.size(), 8);
    assert_eq!(l.get(&0), Some(0));
    assert_eq!(l.get(&3), Some(3));
    assert_eq!(l.get(&4), Some(8));
    assert_eq!(l.get(&7), Some(11));
    assert_eq!(l.get(&8), None);
    assert_eq!(l._index_of(&9), Some(5));
    assert!(l._contains(&11));
    assert!(!l._contains(&5));
    assert_eq!(l.size_checked(), Some(8));
}

#[test]
fn terminal_eval_follows_the_arithmetic() {
    assert_eq!(TerminalRoutingProgram::Noop.eval(7), 7);
    assert_eq!(TerminalRoutingProgram::RShift(1).eval(6), 3);
    assert_eq!(TerminalRoutingProgram::RShift(70).eval(u64::MAX), 0);
    assert_eq!(TerminalRoutingProgram::Add(4).eval(3), 7);
    assert_eq!(TerminalRoutingProgram::Add(1).eval(u64::MAX), 0);
    assert_eq!(TerminalRoutingProgram::SubPortVal(4).eval(9), 5);
    assert_eq!(TerminalRoutingProgram::SubPortVal(1).eval(0), u64::MAX);
    assert_eq!(TerminalRoutingProgram::SubValPort(9).eval(4), 5);
    assert_eq!(TerminalRoutingProgram::Constant(11).eval(100), 11);
}

#[test]
fn sequence_eval_folds_left_to_right() {
    let s = SequenceRoutingProg::Sequence(vec![
        TerminalRoutingProgram::Add(6),
        TerminalRoutingProgram::RShift(1),
    ]);
    assert_eq!(s.eval(2), 4);
}

#[test]
fn switch_eval_takes_the_first_matching_case() {
    let sw = TopLevelRoutingProgram::Switch(
        vec![
            (
                Condition::ComparisonPortVal(4, ComparisonOperator::LessThan),
                SequenceRoutingProg::Prog(TerminalRoutingProgram::Noop),
            ),
            (
                Condition::ComparisonPortVal(100, ComparisonOperator::LessThan),
                SequenceRoutingProg::Prog(TerminalRoutingProgram::SubPortVal(4)),
            ),
        ],
        Box::new(SequenceRoutingProg::Prog(TerminalRoutingProgram::Constant(
            0,
        ))),
    );
    assert_eq!(sw.eval(2), 2);
    assert_eq!(sw.eval(9), 5);
    assert_eq!(sw.eval(200), 0);
}

#[test]
fn condition_eval_boolean_algebra() {
    let lt5 = Condition::ComparisonPortVal(5, ComparisonOperator::LessThan);
    let ge2 = Condition::ComparisonPortVal(2, ComparisonOperator::GreaterThanOrEqual);
    let both = Condition::And(Box::new(lt5.clone()), Box::new(ge2.clone()));
    assert!(both.eval(3));
    assert!(!both.eval(7));
    let either = Condition::Or(Box::new(lt5.clone()), Box::new(ge2.clone()));
    assert!(either.eval(7));
    let neg = Condition::Not(Box::new(lt5));
    assert!(neg.eval(9));
    assert!(!neg.eval(1));
    let rev = Condition::ComparisonValPort(5, ComparisonOperator::LessThan);
    assert!(rev.eval(6));
    assert!(!rev.eval(5));
}

#[test]
fn bits_required_is_ceil_log2() {
    assert_eq!(bits_required(0), 1);
    assert_eq!(bits_required(1), 1);
    assert_eq!(bits_required(2), 1);
    assert_eq!(bits_required(3), 2);
    assert_eq!(bits_required(4), 2);
    assert_eq!(bits_required(5), 3);
    assert_eq!(bits_required(8), 3);
    assert_eq!(bits_required(9), 4);
    assert_eq!(bits_required(1 << 20), 20);
}

#[test]
fn trace_normalization_drops_dead_lines_and_pads() {
    let t = Trace::new(
        4,
        8,
        vec![
            vec![Some(0)],
            vec![None, None],
            vec![None, Some(2)],
            vec![Some(1), Some(3)],
        ],
    );
    let lines = t.iter();
    assert_eq!(lines.len(), 3);
    assert_eq!(lines[0], vec![Some(0), None]);
    assert_eq!(lines[1], vec![None, Some(2)]);
    assert_eq!(lines[2], vec![Some(1), Some(3)]);
    assert_eq!(t.num_ports(), 2);
    assert_eq!(t.size(), 4);
    assert_eq!(t.bitwidth(), 8);
}

#[test]
fn trace_normalization_is_idempotent() {
    let mut t = Trace::new(4, 8, vec![vec![Some(0), None], vec![None, None], vec![Some(1)]]);
    let once = t.clone();
    t.normalize();
    assert_eq!(t, once);
}

#[test]
fn single_port_identity_validates() {
    let t = Trace::new(4, 8, vec![vec![Some(0)], vec![Some(1)], vec![Some(2)], vec![Some(3)]]);
    let bank = single_bank(TerminalRoutingProgram::Noop, range(0, 4, 1));
    assert_eq!(bank.size(), 4);
    let comp = Component::from_trace(vec![bank], &t);
    assert!(comp.vailidate(&t));
}

#[test]
fn even_odd_split_validates() {
    let t = Trace::new(
        8,
        8,
        vec![
            vec![Some(0), Some(1)],
            vec![Some(2), Some(3)],
            vec![Some(4), Some(5)],
            vec![Some(6), Some(7)],
        ],
    );
    let b0 = single_bank(TerminalRoutingProgram::RShift(1), range(0, 8, 2));
    let b1 = single_bank(TerminalRoutingProgram::RShift(1), range(1, 8, 2));
    assert_eq!(b0.size(), 4);
    assert_eq!(b1.size(), 4);
    let comp = Component::from_trace(vec![b0, b1], &t);
    assert!(comp.vailidate(&t));
}

#[test]
fn disjoint_halves_validate() {
    let t = Trace::new(
        8,
        8,
        vec![
            vec![Some(0), Some(4)],
            vec![Some(1), Some(5)],
            vec![Some(2), Some(6)],
            vec![Some(3), Some(7)],
        ],
    );
    let b0 = single_bank(TerminalRoutingProgram::Noop, range(0, 4, 1));
    let b1 = single_bank(TerminalRoutingProgram::SubPortVal(4), range(4, 8, 1));
    assert_eq!(b0.size(), 4);
    assert_eq!(b1.size(), 4);
    let comp = Component::from_trace(vec![b0, b1], &t);
    assert!(comp.vailidate(&t));
}

#[test]
fn padded_trace_only_requires_present_slots() {
    let t = Trace::new(4, 8, vec![vec![Some(0), None], vec![None, Some(2)], vec![Some(1), Some(3)]]);
    let b0 = single_bank(TerminalRoutingProgram::Noop, range(0, 2, 1));
    let b1 = single_bank(TerminalRoutingProgram::SubPortVal(2), range(2, 4, 1));
    let comp = Component::from_trace(vec![b0, b1], &t);
    assert!(comp.vailidate(&t));
}

#[test]
fn conflicting_ports_fail_disjoint_candidates() {
    let t = Trace::new(2, 8, vec![vec![Some(0), Some(0)]]);
    let b0 = single_bank(TerminalRoutingProgram::Noop, range(0, 1, 1));
    let b1 = single_bank(TerminalRoutingProgram::SubPortVal(1), range(1, 2, 1));
    let comp = Component::from_trace(vec![b0, b1], &t);
    assert!(!comp.vailidate(&t));
    let b0 = single_bank(TerminalRoutingProgram::Constant(1), range(1, 2, 1));
    let b1 = single_bank(TerminalRoutingProgram::Noop, range(0, 1, 1));
    let comp = Component::from_trace(vec![b0, b1], &t);
    assert!(!comp.vailidate(&t));
}

#[test]
fn validation_fails_on_a_request_outside_the_bank() {
    let t = Trace::new(4, 8, vec![vec![Some(3)]]);
    let bank = single_bank(TerminalRoutingProgram::Noop, range(0, 2, 1));
    let comp = Component::from_trace(vec![bank], &t);
    assert!(!comp.vailidate(&t));
}

#[test]
fn validation_fails_when_a_port_has_no_bank() {
    let t = Trace::new(4, 8, vec![vec![Some(0), Some(1)]]);
    let bank = single_bank(TerminalRoutingProgram::Noop, range(0, 4, 1));
    let comp = Component::from_trace(vec![bank], &t);
    assert!(!comp.vailidate(&t));
}

#[test]
fn from_parse_derives_address_bits_from_size() {
    let bank = single_bank(TerminalRoutingProgram::Noop, range(0, 4, 1));
    let comp = Component::from_parse(8, 16, vec![bank]);
    assert_eq!(comp.size, 8);
    assert_eq!(comp.width, 16);
    assert_eq!(comp.address_bit_width, 3);
    assert_eq!(comp.port_count, 1);
}
