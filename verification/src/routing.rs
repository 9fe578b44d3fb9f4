//! Routing programs: per-port transforms from a logical address to a physical
//! bank index, plus the boolean conditions used by switch dispatch.
//!
//! Arithmetic on addresses follows the bit-vector semantics of the constraint
//! encoding: addition and subtraction wrap modulo `2^64`, and a right shift by
//! 64 or more produces 0.

use vstd::prelude::*;

verus! {

/// A comparison between the incoming port address and a constant.
#[derive(Debug, Clone, Copy, PartialEq, Eq)]
pub enum ComparisonOperator {
    LessThan,
    Equal,
    GreaterThan,
    NotEqual,
    LessThanOrEqual,
    GreaterThanOrEqual,
}

/// A boolean tree over comparisons of the port address with constants.
#[derive(Debug, PartialEq, Eq)]
pub enum Condition {
    /// `INPUT op value`
    ComparisonPortVal(u64, ComparisonOperator),
    /// `value op INPUT`
    ComparisonValPort(u64, ComparisonOperator),
    And(Box<Condition>, Box<Condition>),
    Or(Box<Condition>, Box<Condition>),
    Not(Box<Condition>),
}

/// A single-step transform of one address to another.
#[derive(Debug, Clone, PartialEq, Eq)]
pub enum TerminalRoutingProgram {
    RShift(usize),
    Add(u64),
    /// `INPUT - value`
    SubPortVal(u64),
    /// `value - INPUT`
    SubValPort(u64),
    Constant(u64),
    Noop,
}

/// Either a single terminal or a non-empty list of terminals applied
/// left to right.
#[derive(Debug, Clone, PartialEq, Eq)]
pub enum SequenceRoutingProg {
    Sequence(Vec<TerminalRoutingProgram>),
    Prog(TerminalRoutingProgram),
}

/// A routing program: unconditional, or a guarded selection between
/// sequence programs with a default.
#[derive(Debug, Clone, PartialEq, Eq)]
pub enum TopLevelRoutingProgram {
    Switch(Vec<(Condition, SequenceRoutingProg)>, Box<SequenceRoutingProg>),
    Prog(SequenceRoutingProg),
}

impl Clone for Condition {
    fn clone(&self) -> (r: Self)
        ensures
            r == *self,
        decreases *self,
    {
        match self {
            Condition::ComparisonPortVal(val, op) => Condition::ComparisonPortVal(*val, *op),
            Condition::ComparisonValPort(val, op) => Condition::ComparisonValPort(*val, *op),
            Condition::And(c1, c2) => Condition::And(
                Box::new((**c1).clone()),
                Box::new((**c2).clone()),
            ),
            Condition::Or(c1, c2) => Condition::Or(
                Box::new((**c1).clone()),
                Box::new((**c2).clone()),
            ),
            Condition::Not(c1) => Condition::Not(Box::new((**c1).clone())),
        }
    }
}

/// Meaning of a comparison operator.
pub open spec fn spec_cmp(op: ComparisonOperator, left: u64, right: u64) -> bool {
    match op {
        ComparisonOperator::LessThan => left < right,
        ComparisonOperator::Equal => left == right,
        ComparisonOperator::GreaterThan => left > right,
        ComparisonOperator::NotEqual => left != right,
        ComparisonOperator::LessThanOrEqual => left <= right,
        ComparisonOperator::GreaterThanOrEqual => left >= right,
    }
}

/// Meaning of a condition applied to a port address.
pub open spec fn spec_cond_eval(c: Condition, port_val: u64) -> bool
    decreases c,
{
    match c {
        Condition::ComparisonPortVal(val, op) => spec_cmp(op, port_val, val),
        Condition::ComparisonValPort(val, op) => spec_cmp(op, val, port_val),
        Condition::And(c1, c2) => spec_cond_eval(*c1, port_val) && spec_cond_eval(*c2, port_val),
        Condition::Or(c1, c2) => spec_cond_eval(*c1, port_val) || spec_cond_eval(*c2, port_val),
        Condition::Not(c1) => !spec_cond_eval(*c1, port_val),
    }
}

/// Meaning of a terminal transform: modular arithmetic on 64-bit addresses;
/// a right shift of 64 or more clears the value.
pub open spec fn spec_terminal_eval(p: TerminalRoutingProgram, port_val: u64) -> u64 {
    match p {
        TerminalRoutingProgram::Add(v) => vstd::wrapping::u64_specs::wrapping_add(port_val, v),
        TerminalRoutingProgram::SubPortVal(v) => vstd::wrapping::u64_specs::wrapping_sub(
            port_val,
            v,
        ),
        TerminalRoutingProgram::SubValPort(v) => vstd::wrapping::u64_specs::wrapping_sub(
            v,
            port_val,
        ),
        TerminalRoutingProgram::Constant(c) => c,
        TerminalRoutingProgram::RShift(amount) => if amount >= 64 {
            0u64
        } else {
            port_val >> (amount as u64)
        },
        TerminalRoutingProgram::Noop => port_val,
    }
}

/// Left-to-right fold of a list of terminals over a starting address.
pub open spec fn spec_fold_terminals(ts: Seq<TerminalRoutingProgram>, port_val: u64) -> u64
    decreases ts.len(),
{
    if ts.len() == 0 {
        port_val
    } else {
        spec_fold_terminals(ts.drop_first(), spec_terminal_eval(ts.first(), port_val))
    }
}

/// Meaning of a sequence program.
pub open spec fn spec_seq_eval(p: SequenceRoutingProg, port_val: u64) -> u64 {
    match p {
        SequenceRoutingProg::Sequence(s) => spec_fold_terminals(s@, port_val),
        SequenceRoutingProg::Prog(t) => spec_terminal_eval(t, port_val),
    }
}

/// First case whose condition holds selects the program; otherwise the
/// default applies.
pub open spec fn spec_switch_eval(
    cases: Seq<(Condition, SequenceRoutingProg)>,
    dflt: SequenceRoutingProg,
    port_val: u64,
) -> u64
    decreases cases.len(),
{
    if cases.len() == 0 {
        spec_seq_eval(dflt, port_val)
    } else if spec_cond_eval(cases.first().0, port_val) {
        spec_seq_eval(cases.first().1, port_val)
    } else {
        spec_switch_eval(cases.drop_first(), dflt, port_val)
    }
}

/// Meaning of a top-level routing program.
pub open spec fn spec_top_eval(p: TopLevelRoutingProgram, port_val: u64) -> u64 {
    match p {
        TopLevelRoutingProgram::Switch(cases, dflt) => spec_switch_eval(cases@, *dflt, port_val),
        TopLevelRoutingProgram::Prog(s) => spec_seq_eval(s, port_val),
    }
}

/// A sequence program is well formed when an explicit sequence is non-empty.
pub open spec fn seq_prog_wf(p: SequenceRoutingProg) -> bool {
    match p {
        SequenceRoutingProg::Sequence(s) => s@.len() >= 1,
        SequenceRoutingProg::Prog(_) => true,
    }
}

/// A top-level program is well formed when each of its branches is.
pub open spec fn top_prog_wf(p: TopLevelRoutingProgram) -> bool {
    match p {
        TopLevelRoutingProgram::Switch(cases, dflt) => seq_prog_wf(*dflt) && forall|i: int|
            0 <= i < cases@.len() ==> seq_prog_wf((#[trigger] cases@[i]).1),
        TopLevelRoutingProgram::Prog(s) => seq_prog_wf(s),
    }
}

impl ComparisonOperator {
    pub fn eval(&self, left: &u64, right: &u64) -> (r: bool)
        ensures
            r == spec_cmp(*self, *left, *right),
    {
        match self {
            ComparisonOperator::LessThan => left < right,
            ComparisonOperator::Equal => left == right,
            ComparisonOperator::GreaterThan => left > right,
            ComparisonOperator::NotEqual => left != right,
            ComparisonOperator::LessThanOrEqual => left <= right,
            ComparisonOperator::GreaterThanOrEqual => left >= right,
        }
    }
}

impl Condition {
    pub fn eval(&self, port_val: u64) -> (r: bool)
        ensures
            r == spec_cond_eval(*self, port_val),
        decreases *self,
    {
        match self {
            Condition::ComparisonPortVal(val, op) => op.eval(&port_val, val),
            Condition::ComparisonValPort(val, op) => op.eval(val, &port_val),
            Condition::And(c1, c2) => c1.eval(port_val) && c2.eval(port_val),
            Condition::Or(c1, c2) => c1.eval(port_val) || c2.eval(port_val),
            Condition::Not(c1) => !c1.eval(port_val),
        }
    }
}

impl TerminalRoutingProgram {
    pub fn eval(&self, port_val: u64) -> (r: u64)
        ensures
            r == spec_terminal_eval(*self, port_val),
    {
        match self {
            TerminalRoutingProgram::Add(v) => port_val.wrapping_add(*v),
            TerminalRoutingProgram::SubPortVal(v) => port_val.wrapping_sub(*v),
            TerminalRoutingProgram::SubValPort(v) => v.wrapping_sub(port_val),
            TerminalRoutingProgram::Constant(c) => *c,
            TerminalRoutingProgram::RShift(amount) => if *amount >= 64 {
                0u64
            } else {
                port_val >> (*amount as u64)
            },
            TerminalRoutingProgram::Noop => port_val,
        }
    }
}

impl SequenceRoutingProg {
    pub fn eval(&self, port_val: u64) -> (r: u64)
        ensures
            r == spec_seq_eval(*self, port_val),
    {
        match self {
            SequenceRoutingProg::Sequence(s) => {
                proof {
                    assert(s@.skip(0) =~= s@);
                }
                let mut acc: u64 = port_val;
                let mut i: usize = 0;
                while i < s.len()
                    invariant
                        i <= s@.len(),
                        spec_fold_terminals(s@.skip(i as int), acc) == spec_fold_terminals(
                            s@,
                            port_val,
                        ),
                    decreases s@.len() - i,
                {
                    proof {
                        assert(s@.skip(i as int).drop_first() =~= s@.skip(i as int + 1));
                    }
                    acc = s[i].eval(acc);
                    i = i + 1;
                }
                proof {
                    assert(s@.skip(i as int) =~= Seq::<TerminalRoutingProgram>::empty());
                }
                acc
            },
            SequenceRoutingProg::Prog(t) => t.eval(port_val),
        }
    }
}

impl TopLevelRoutingProgram {
    pub fn eval(&self, port_val: u64) -> (r: u64)
        ensures
            r == spec_top_eval(*self, port_val),
    {
        match self {
            TopLevelRoutingProgram::Switch(cases, dflt) => {
                proof {
                    assert(cases@.skip(0) =~= cases@);
                }
                let mut i: usize = 0;
                while i < cases.len()
                    invariant
                        *self == TopLevelRoutingProgram::Switch(*cases, *dflt),
                        i <= cases@.len(),
                        spec_switch_eval(cases@.skip(i as int), **dflt, port_val)
                            == spec_switch_eval(cases@, **dflt, port_val),
                        forall|j: int|
                            0 <= j < i ==> !spec_cond_eval(#[trigger] cases@[j].0, port_val),
                    decreases cases@.len() - i,
                {
                    proof {
                        assert(cases@.skip(i as int).drop_first() =~= cases@.skip(i as int + 1));
                    }
                    if cases[i].0.eval(port_val) {
                        proof {
                            assert(cases@.skip(i as int).first() == cases@[i as int]);
                        }
                        return cases[i].1.eval(port_val);
                    }
                    i = i + 1;
                }
                proof {
                    assert(cases@.skip(i as int) =~= Seq::<(
                        Condition,
                        SequenceRoutingProg,
                    )>::empty());
                }
                dflt.eval(port_val)
            },
            TopLevelRoutingProgram::Prog(s) => s.eval(port_val),
        }
    }
}

impl From<TerminalRoutingProgram> for SequenceRoutingProg {
    fn from(p: TerminalRoutingProgram) -> (r: Self) {
        Self::Prog(p)
    }
}

impl vstd::std_specs::convert::FromSpecImpl<TerminalRoutingProgram> for SequenceRoutingProg {
    open spec fn obeys_from_spec() -> bool {
        true
    }

    open spec fn from_spec(p: TerminalRoutingProgram) -> Self {
        SequenceRoutingProg::Prog(p)
    }
}

impl From<SequenceRoutingProg> for TopLevelRoutingProgram {
    fn from(p: SequenceRoutingProg) -> (r: Self) {
        Self::Prog(p)
    }
}

impl vstd::std_specs::convert::FromSpecImpl<SequenceRoutingProg> for TopLevelRoutingProgram {
    open spec fn obeys_from_spec() -> bool {
        true
    }

    open spec fn from_spec(p: SequenceRoutingProg) -> Self {
        TopLevelRoutingProgram::Prog(p)
    }
}

impl From<TerminalRoutingProgram> for TopLevelRoutingProgram {
    fn from(p: TerminalRoutingProgram) -> (r: Self) {
        Self::Prog(SequenceRoutingProg::Prog(p))
    }
}

impl vstd::std_specs::convert::FromSpecImpl<TerminalRoutingProgram> for TopLevelRoutingProgram {
    open spec fn obeys_from_spec() -> bool {
        true
    }

    open spec fn from_spec(p: TerminalRoutingProgram) -> Self {
        TopLevelRoutingProgram::Prog(SequenceRoutingProg::Prog(p))
    }
}

} // verus!
