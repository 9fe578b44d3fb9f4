//! Textual rendering of layouts, routing programs, banks and components in
//! the author dialect of the description language.
//!
//! Each printer has a spec-level companion that gives the exact character
//! sequence produced; the parser is proved to invert these printers.

use crate::component::{Component, MemoryBank};
use crate::layout::{MemoryLayout, TopLevelMemoryLayout};
use crate::routing::{
    seq_prog_wf,
    top_prog_wf,
    ComparisonOperator,
    Condition,
    SequenceRoutingProg,
    TerminalRoutingProgram,
    TopLevelRoutingProgram,
};
use vstd::prelude::*;

verus! {

/// Relies on String::push_str: appends the second string to the first.
#[verifier::external_body]
pub(crate) fn str_concat(a: &str, b: &str) -> (r: String)
    ensures
        r@ == a@ + b@,
{
    let mut s = a.to_owned();
    s.push_str(b);
    s
}

/// The decimal digit character for `d`.
pub open spec fn dec_digit(d: nat) -> char {
    ((48 + d) as u8) as char
}

/// The decimal numeral of `n`, most significant digit first.
pub open spec fn dec_str(n: nat) -> Seq<char>
    decreases n,
{
    if n < 10 {
        seq![dec_digit(n)]
    } else {
        dec_str(n / 10).push(dec_digit(n % 10))
    }
}

/// The digit character of a value below ten.
fn digit_lit(d: u64) -> (r: &'static str)
    requires
        d < 10,
    ensures
        r@ == seq![dec_digit(d as nat)],
{
    proof {
        reveal_strlit("0");
        reveal_strlit("1");
        reveal_strlit("2");
        reveal_strlit("3");
        reveal_strlit("4");
        reveal_strlit("5");
        reveal_strlit("6");
        reveal_strlit("7");
        reveal_strlit("8");
        reveal_strlit("9");
    }
    if d == 0 {
        "0"
    } else if d == 1 {
        "1"
    } else if d == 2 {
        "2"
    } else if d == 3 {
        "3"
    } else if d == 4 {
        "4"
    } else if d == 5 {
        "5"
    } else if d == 6 {
        "6"
    } else if d == 7 {
        "7"
    } else if d == 8 {
        "8"
    } else {
        "9"
    }
}

/// Renders `n` in decimal.
pub fn fmt_u64(n: u64) -> (r: String)
    ensures
        r@ == dec_str(n as nat),
    decreases n,
{
    if n < 10 {
        let s = digit_lit(n).to_owned();
        s
    } else {
        let prefix = fmt_u64(n / 10);
        let r = str_concat(prefix.as_str(), digit_lit(n % 10));
        proof {
            assert(r@ =~= dec_str((n / 10) as nat).push(dec_digit((n % 10) as nat)));
        }
        r
    }
}

/// `level * 4` spaces.
pub open spec fn indent(level: nat) -> Seq<char> {
    Seq::new(level * 4, |i: int| ' ')
}

/// Renders the indentation for `level`.
pub fn spaces(level: usize) -> (r: String)
    requires
        level < 1024,
    ensures
        r@ == indent(level as nat),
{
    proof {
        reveal_strlit(" ");
    }
    let mut s = String::new();
    let n = level * 4;
    let mut i: usize = 0;
    while i < n
        invariant
            i <= n,
            s@ =~= Seq::new(i as nat, |k: int| ' '),
        decreases n - i,
    {
        s = str_concat(s.as_str(), " ");
        proof {
            reveal_strlit(" ");
            assert(s@ =~= Seq::new(i as nat + 1, |k: int| ' '));
        }
        i = i + 1;
    }
    proof {
        assert(s@ =~= indent(level as nat));
    }
    s
}

/// Text of a terminal transform.
pub open spec fn pp_terminal(t: TerminalRoutingProgram) -> Seq<char> {
    match t {
        TerminalRoutingProgram::RShift(n) => "INPUT >> "@ + dec_str(n as nat),
        TerminalRoutingProgram::Add(n) => "INPUT + "@ + dec_str(n as nat),
        TerminalRoutingProgram::SubPortVal(n) => "INPUT - "@ + dec_str(n as nat),
        TerminalRoutingProgram::SubValPort(n) => dec_str(n as nat) + " - INPUT"@,
        TerminalRoutingProgram::Constant(n) => dec_str(n as nat),
        TerminalRoutingProgram::Noop => "NOOP"@,
    }
}

/// Text of a comparison operator.
pub open spec fn pp_cmp(op: ComparisonOperator) -> Seq<char> {
    match op {
        ComparisonOperator::LessThan => "<"@,
        ComparisonOperator::Equal => "=="@,
        ComparisonOperator::GreaterThan => ">"@,
        ComparisonOperator::NotEqual => "!="@,
        ComparisonOperator::LessThanOrEqual => "<="@,
        ComparisonOperator::GreaterThanOrEqual => ">="@,
    }
}

/// Text of a condition, fully parenthesized.
pub open spec fn pp_cond(c: Condition) -> Seq<char>
    decreases c,
{
    match c {
        Condition::ComparisonPortVal(val, op) => "INPUT "@ + pp_cmp(op) + " "@ + dec_str(
            val as nat,
        ),
        Condition::ComparisonValPort(val, op) => dec_str(val as nat) + " "@ + pp_cmp(op)
            + " INPUT"@,
        Condition::And(c1, c2) => "("@ + pp_cond(*c1) + " && "@ + pp_cond(*c2) + ")"@,
        Condition::Or(c1, c2) => "("@ + pp_cond(*c1) + " || "@ + pp_cond(*c2) + ")"@,
        Condition::Not(c1) => "!("@ + pp_cond(*c1) + ")"@,
    }
}

/// Text of a range: `[start:finish:stride]`.
pub open spec fn pp_range(m: MemoryLayout) -> Seq<char> {
    match m {
        MemoryLayout::Range { start, finish, stride } => "["@ + dec_str(start as nat) + ":"@
            + dec_str(finish as nat) + ":"@ + dec_str(stride as nat) + "]"@,
    }
}

impl TerminalRoutingProgram {
    /// Renders the transform in the author dialect.
    pub fn pretty_print(&self) -> (r: String)
        ensures
            r@ == pp_terminal(*self),
    {
        match self {
            TerminalRoutingProgram::RShift(n) => str_concat(
                "INPUT >> ",
                fmt_u64(*n as u64).as_str(),
            ),
            TerminalRoutingProgram::Add(n) => str_concat("INPUT + ", fmt_u64(*n).as_str()),
            TerminalRoutingProgram::SubPortVal(n) => str_concat(
                "INPUT - ",
                fmt_u64(*n).as_str(),
            ),
            TerminalRoutingProgram::SubValPort(n) => str_concat(
                fmt_u64(*n).as_str(),
                " - INPUT",
            ),
            TerminalRoutingProgram::Constant(n) => fmt_u64(*n),
            TerminalRoutingProgram::Noop => "NOOP".to_owned(),
        }
    }
}

impl ComparisonOperator {
    /// Renders the operator.
    pub fn pretty_print(&self) -> (r: String)
        ensures
            r@ == pp_cmp(*self),
    {
        let lit = match self {
            ComparisonOperator::LessThan => "<",
            ComparisonOperator::Equal => "==",
            ComparisonOperator::GreaterThan => ">",
            ComparisonOperator::NotEqual => "!=",
            ComparisonOperator::LessThanOrEqual => "<=",
            ComparisonOperator::GreaterThanOrEqual => ">=",
        };
        lit.to_owned()
    }
}

impl Condition {
    /// Renders the condition, fully parenthesized.
    pub fn pretty_print(&self) -> (r: String)
        ensures
            r@ == pp_cond(*self),
        decreases *self,
    {
        match self {
            Condition::ComparisonPortVal(val, op) => {
                let r = str_concat("INPUT ", op.pretty_print().as_str());
                let r = str_concat(r.as_str(), " ");
                let r = str_concat(r.as_str(), fmt_u64(*val).as_str());
                proof {
                    assert(r@ =~= pp_cond(*self));
                }
                r
            },
            Condition::ComparisonValPort(val, op) => {
                let r = str_concat(fmt_u64(*val).as_str(), " ");
                let r = str_concat(r.as_str(), op.pretty_print().as_str());
                let r = str_concat(r.as_str(), " INPUT");
                proof {
                    assert(r@ =~= pp_cond(*self));
                }
                r
            },
            Condition::And(c1, c2) => {
                let r = str_concat("(", c1.pretty_print().as_str());
                let r = str_concat(r.as_str(), " && ");
                let r = str_concat(r.as_str(), c2.pretty_print().as_str());
                let r = str_concat(r.as_str(), ")");
                proof {
                    assert(r@ =~= pp_cond(*self));
                }
                r
            },
            Condition::Or(c1, c2) => {
                let r = str_concat("(", c1.pretty_print().as_str());
                let r = str_concat(r.as_str(), " || ");
                let r = str_concat(r.as_str(), c2.pretty_print().as_str());
                let r = str_concat(r.as_str(), ")");
                proof {
                    assert(r@ =~= pp_cond(*self));
                }
                r
            },
            Condition::Not(c1) => {
                let r = str_concat("!(", c1.pretty_print().as_str());
                let r = str_concat(r.as_str(), ")");
                proof {
                    assert(r@ =~= pp_cond(*self));
                }
                r
            },
        }
    }
}

/// Text of the second and later elements of a terminal sequence.
pub open spec fn pp_terminals_rest(ts: Seq<TerminalRoutingProgram>, ind: Seq<char>) -> Seq<char>
    decreases ts.len(),
{
    if ts.len() == 0 {
        Seq::empty()
    } else {
        ","@ + ind + pp_terminal(ts.first()) + "\n"@ + pp_terminals_rest(ts.drop_first(), ind)
    }
}

/// Text of a sequence program.
pub open spec fn pp_seq_prog(p: SequenceRoutingProg, level: nat) -> Seq<char> {
    match p {
        SequenceRoutingProg::Prog(t) => pp_terminal(t),
        SequenceRoutingProg::Sequence(ts) => "["@ + indent(level) + pp_terminal(ts@[0])
            + pp_terminals_rest(ts@.skip(1), indent(level)) + indent(level) + "]"@,
    }
}

/// Text of the guarded cases of a switch.
pub open spec fn pp_cases(cases: Seq<(Condition, SequenceRoutingProg)>, level: nat) -> Seq<char>
    decreases cases.len(),
{
    if cases.len() == 0 {
        Seq::empty()
    } else {
        indent(level) + "\t"@ + pp_cond(cases.first().0) + " -> "@ + pp_seq_prog(
            cases.first().1,
            level + 1,
        ) + ",\n"@ + pp_cases(cases.drop_first(), level)
    }
}

/// Text of a top-level routing program.
pub open spec fn pp_top_prog(p: TopLevelRoutingProgram, level: nat) -> Seq<char> {
    match p {
        TopLevelRoutingProgram::Prog(s) => pp_seq_prog(s, level),
        TopLevelRoutingProgram::Switch(cases, dflt) => indent(level) + "switch {\n"@ + pp_cases(
            cases@,
            level,
        ) + indent(level) + "\t -> "@ + pp_seq_prog(*dflt, level + 1) + "\n"@ + indent(level)
            + "}\n"@,
    }
}

/// Text of the second and later ranges of a layout list.
pub open spec fn pp_ranges_rest(ms: Seq<MemoryLayout>, ind: Seq<char>) -> Seq<char>
    decreases ms.len(),
{
    if ms.len() == 0 {
        Seq::empty()
    } else {
        ",\n"@ + ind + "\t"@ + pp_range(ms.first()) + pp_ranges_rest(ms.drop_first(), ind)
    }
}

/// Text of a top-level layout: a bare range, or a bracketed list.
pub open spec fn pp_layout(l: TopLevelMemoryLayout, level: nat) -> Seq<char> {
    if l.mems@.len() == 1 {
        pp_range(l.mems@[0])
    } else {
        indent(level) + "[\n"@ + indent(level) + "\t"@ + pp_range(l.mems@[0]) + pp_ranges_rest(
            l.mems@.skip(1),
            indent(level),
        ) + indent(level) + "\n]\n"@
    }
}

/// Text of a bank: its layout and its translation.
#[verifier::opaque]
pub open spec fn pp_bank(b: MemoryBank, level: nat) -> Seq<char> {
    indent(level) + "bank {\n"@ + indent(level) + "\tlayout: "@ + pp_layout(
        b.memory_layout,
        level + 1,
    ) + ",\n"@ + indent(level) + "\ttranslation: "@ + pp_top_prog(b.routing, level + 1) + "\n"@
        + indent(level) + "}\n"@
}

/// Text of the banks of a component, one after another.
pub open spec fn pp_banks(bs: Seq<MemoryBank>) -> Seq<char>
    decreases bs.len(),
{
    if bs.len() == 0 {
        Seq::empty()
    } else {
        pp_bank(bs.first(), 1) + "\n"@ + pp_banks(bs.drop_first())
    }
}

/// Text of a whole component.
pub open spec fn pp_component(c: Component) -> Seq<char> {
    "memory<"@ + dec_str(c.width as nat) + ","@ + dec_str(c.size as nat) + "> {\n"@ + pp_banks(
        c.banks@,
    ) + "}\n"@
}

/// A bank whose printers are defined: a non-empty layout and well-formed
/// programs.
pub open spec fn bank_pp_wf(b: MemoryBank) -> bool {
    b.memory_layout.mems@.len() >= 1 && top_prog_wf(b.routing)
}

proof fn lemma_pp_terminals_rest_push(
    ts: Seq<TerminalRoutingProgram>,
    x: TerminalRoutingProgram,
    ind: Seq<char>,
)
    ensures
        pp_terminals_rest(ts.push(x), ind) == pp_terminals_rest(ts, ind) + (","@ + ind
            + pp_terminal(x) + "\n"@),
    decreases ts.len(),
{
    if ts.len() == 0 {
        assert(ts.push(x).drop_first() =~= ts);
        assert(pp_terminals_rest(ts.push(x), ind) =~= pp_terminals_rest(ts, ind) + (","@ + ind
            + pp_terminal(x) + "\n"@));
    } else {
        assert(ts.push(x).drop_first() =~= ts.drop_first().push(x));
        assert(ts.push(x).first() == ts.first());
        lemma_pp_terminals_rest_push(ts.drop_first(), x, ind);
        assert(pp_terminals_rest(ts.push(x), ind) =~= pp_terminals_rest(ts, ind) + (","@ + ind
            + pp_terminal(x) + "\n"@));
    }
}

proof fn lemma_pp_cases_push(
    cases: Seq<(Condition, SequenceRoutingProg)>,
    x: (Condition, SequenceRoutingProg),
    level: nat,
)
    ensures
        pp_cases(cases.push(x), level) == pp_cases(cases, level) + (indent(level) + "\t"@
            + pp_cond(x.0) + " -> "@ + pp_seq_prog(x.1, level + 1) + ",\n"@),
    decreases cases.len(),
{
    if cases.len() == 0 {
        assert(cases.push(x).drop_first() =~= cases);
        assert(pp_cases(cases.push(x), level) =~= pp_cases(cases, level) + (indent(level) + "\t"@
            + pp_cond(x.0) + " -> "@ + pp_seq_prog(x.1, level + 1) + ",\n"@));
    } else {
        assert(cases.push(x).drop_first() =~= cases.drop_first().push(x));
        assert(cases.push(x).first() == cases.first());
        lemma_pp_cases_push(cases.drop_first(), x, level);
        assert(pp_cases(cases.push(x), level) =~= pp_cases(cases, level) + (indent(level) + "\t"@
            + pp_cond(x.0) + " -> "@ + pp_seq_prog(x.1, level + 1) + ",\n"@));
    }
}

proof fn lemma_pp_ranges_rest_push(ms: Seq<MemoryLayout>, x: MemoryLayout, ind: Seq<char>)
    ensures
        pp_ranges_rest(ms.push(x), ind) == pp_ranges_rest(ms, ind) + (",\n"@ + ind + "\t"@
            + pp_range(x)),
    decreases ms.len(),
{
    if ms.len() == 0 {
        assert(ms.push(x).drop_first() =~= ms);
        assert(pp_ranges_rest(ms.push(x), ind) =~= pp_ranges_rest(ms, ind) + (",\n"@ + ind + "\t"@
            + pp_range(x)));
    } else {
        assert(ms.push(x).drop_first() =~= ms.drop_first().push(x));
        assert(ms.push(x).first() == ms.first());
        lemma_pp_ranges_rest_push(ms.drop_first(), x, ind);
        assert(pp_ranges_rest(ms.push(x), ind) =~= pp_ranges_rest(ms, ind) + (",\n"@ + ind + "\t"@
            + pp_range(x)));
    }
}

proof fn lemma_pp_banks_push(bs: Seq<MemoryBank>, x: MemoryBank)
    ensures
        pp_banks(bs.push(x)) == pp_banks(bs) + (pp_bank(x, 1) + "\n"@),
    decreases bs.len(),
{
    if bs.len() == 0 {
        assert(bs.push(x).drop_first() =~= bs);
        assert(pp_banks(bs.push(x)) =~= pp_banks(bs) + (pp_bank(x, 1) + "\n"@));
    } else {
        assert(bs.push(x).drop_first() =~= bs.drop_first().push(x));
        assert(bs.push(x).first() == bs.first());
        lemma_pp_banks_push(bs.drop_first(), x);
        assert(pp_banks(bs.push(x)) =~= pp_banks(bs) + (pp_bank(x, 1) + "\n"@));
    }
}

impl SequenceRoutingProg {
    /// Renders the sequence program.
    pub fn pretty_print(&self, level: usize) -> (r: String)
        requires
            seq_prog_wf(*self),
            level < 1024,
        ensures
            r@ == pp_seq_prog(*self, level as nat),
    {
        match self {
            SequenceRoutingProg::Prog(t) => t.pretty_print(),
            SequenceRoutingProg::Sequence(ts) => {
                let ind = spaces(level);
                let mut r = str_concat("[", ind.as_str());
                r = str_concat(r.as_str(), ts[0].pretty_print().as_str());
                let ghost ind_seq = indent(level as nat);
                let mut k: usize = 1;
                while k < ts.len()
                    invariant
                        seq_prog_wf(*self),
                        *self == SequenceRoutingProg::Sequence(*ts),
                        1 <= k <= ts@.len(),
                        ind@ == ind_seq,
                        ind_seq == indent(level as nat),
                        r@ == "["@ + ind_seq + pp_terminal(ts@[0]) + pp_terminals_rest(
                            ts@.subrange(1, k as int),
                            ind_seq,
                        ),
                    decreases ts@.len() - k,
                {
                    r = str_concat(r.as_str(), ",");
                    r = str_concat(r.as_str(), ind.as_str());
                    r = str_concat(r.as_str(), ts[k].pretty_print().as_str());
                    r = str_concat(r.as_str(), "\n");
                    proof {
                        assert(ts@.subrange(1, k as int + 1) =~= ts@.subrange(1, k as int).push(
                            ts@[k as int],
                        ));
                        lemma_pp_terminals_rest_push(
                            ts@.subrange(1, k as int),
                            ts@[k as int],
                            ind_seq,
                        );
                        assert(r@ =~= "["@ + ind_seq + pp_terminal(ts@[0]) + pp_terminals_rest(
                            ts@.subrange(1, k as int + 1),
                            ind_seq,
                        ));
                    }
                    k = k + 1;
                }
                r = str_concat(r.as_str(), ind.as_str());
                r = str_concat(r.as_str(), "]");
                proof {
                    assert(ts@.subrange(1, ts@.len() as int) =~= ts@.skip(1));
                    assert(r@ =~= pp_seq_prog(*self, level as nat));
                }
                r
            },
        }
    }
}

impl TopLevelRoutingProgram {
    /// Renders the routing program.
    pub fn pretty_print(&self, level: usize) -> (r: String)
        requires
            top_prog_wf(*self),
            level < 1023,
        ensures
            r@ == pp_top_prog(*self, level as nat),
    {
        match self {
            TopLevelRoutingProgram::Prog(s) => s.pretty_print(level),
            TopLevelRoutingProgram::Switch(cases, dflt) => {
                let ind = spaces(level);
                let mut r = str_concat(ind.as_str(), "switch {\n");
                let ghost ind_seq = indent(level as nat);
                let mut k: usize = 0;
                while k < cases.len()
                    invariant
                        top_prog_wf(*self),
                        *self == TopLevelRoutingProgram::Switch(*cases, *dflt),
                        k <= cases@.len(),
                        level < 1023,
                        ind@ == ind_seq,
                        ind_seq == indent(level as nat),
                        r@ == ind_seq + "switch {\n"@ + pp_cases(
                            cases@.subrange(0, k as int),
                            level as nat,
                        ),
                    decreases cases@.len() - k,
                {
                    proof {
                        assert((*self)->Switch_0 == *cases);
                        assert(seq_prog_wf((*self)->Switch_0@[k as int].1));
                        assert(seq_prog_wf(cases@[k as int].1));
                    }
                    r = str_concat(r.as_str(), ind.as_str());
                    r = str_concat(r.as_str(), "\t");
                    r = str_concat(r.as_str(), cases[k].0.pretty_print().as_str());
                    r = str_concat(r.as_str(), " -> ");
                    r = str_concat(r.as_str(), cases[k].1.pretty_print(level + 1).as_str());
                    r = str_concat(r.as_str(), ",\n");
                    proof {
                        assert(cases@.subrange(0, k as int + 1) =~= cases@.subrange(
                            0,
                            k as int,
                        ).push(cases@[k as int]));
                        lemma_pp_cases_push(
                            cases@.subrange(0, k as int),
                            cases@[k as int],
                            level as nat,
                        );
                        assert(r@ =~= ind_seq + "switch {\n"@ + pp_cases(
                            cases@.subrange(0, k as int + 1),
                            level as nat,
                        ));
                    }
                    k = k + 1;
                }
                r = str_concat(r.as_str(), ind.as_str());
                r = str_concat(r.as_str(), "\t -> ");
                r = str_concat(r.as_str(), dflt.pretty_print(level + 1).as_str());
                r = str_concat(r.as_str(), "\n");
                r = str_concat(r.as_str(), ind.as_str());
                r = str_concat(r.as_str(), "}\n");
                proof {
                    assert(cases@.subrange(0, cases@.len() as int) =~= cases@);
                    assert(r@ =~= pp_top_prog(*self, level as nat));
                }
                r
            },
        }
    }
}

impl TopLevelMemoryLayout {
    /// Renders the layout: a bare range, or a bracketed list of ranges.
    pub fn pretty_print(&self, level: usize) -> (r: String)
        requires
            self.mems@.len() >= 1,
            level < 1024,
        ensures
            r@ == pp_layout(*self, level as nat),
    {
        if self.mems.len() == 1 {
            self.mems[0].pretty_print()
        } else {
            let ind = spaces(level);
            let mut r = str_concat(ind.as_str(), "[\n");
            r = str_concat(r.as_str(), ind.as_str());
            r = str_concat(r.as_str(), "\t");
            r = str_concat(r.as_str(), self.mems[0].pretty_print().as_str());
            let ghost ind_seq = indent(level as nat);
            let mut k: usize = 1;
            while k < self.mems.len()
                invariant
                    1 <= k <= self.mems@.len(),
                    ind@ == ind_seq,
                    ind_seq == indent(level as nat),
                    r@ == ind_seq + "[\n"@ + ind_seq + "\t"@ + pp_range(self.mems@[0])
                        + pp_ranges_rest(self.mems@.subrange(1, k as int), ind_seq),
                decreases self.mems@.len() - k,
            {
                r = str_concat(r.as_str(), ",\n");
                r = str_concat(r.as_str(), ind.as_str());
                r = str_concat(r.as_str(), "\t");
                r = str_concat(r.as_str(), self.mems[k].pretty_print().as_str());
                proof {
                    assert(self.mems@.subrange(1, k as int + 1) =~= self.mems@.subrange(
                        1,
                        k as int,
                    ).push(self.mems@[k as int]));
                    lemma_pp_ranges_rest_push(
                        self.mems@.subrange(1, k as int),
                        self.mems@[k as int],
                        ind_seq,
                    );
                    assert(r@ =~= ind_seq + "[\n"@ + ind_seq + "\t"@ + pp_range(self.mems@[0])
                        + pp_ranges_rest(self.mems@.subrange(1, k as int + 1), ind_seq));
                }
                k = k + 1;
            }
            r = str_concat(r.as_str(), ind.as_str());
            r = str_concat(r.as_str(), "\n]\n");
            proof {
                assert(self.mems@.subrange(1, self.mems@.len() as int) =~= self.mems@.skip(1));
                assert(r@ =~= pp_layout(*self, level as nat));
            }
            r
        }
    }
}

impl MemoryBank {
    /// Renders the bank: its layout and its translation.
    pub fn pretty_print(&self, level: usize) -> (r: String)
        requires
            bank_pp_wf(*self),
            level < 1022,
        ensures
            r@ == pp_bank(*self, level as nat),
    {
        let ind = spaces(level);
        let mut r = str_concat(ind.as_str(), "bank {\n");
        r = str_concat(r.as_str(), ind.as_str());
        r = str_concat(r.as_str(), "\tlayout: ");
        r = str_concat(r.as_str(), self.memory_layout.pretty_print(level + 1).as_str());
        r = str_concat(r.as_str(), ",\n");
        r = str_concat(r.as_str(), ind.as_str());
        r = str_concat(r.as_str(), "\ttranslation: ");
        r = str_concat(r.as_str(), self.routing.pretty_print(level + 1).as_str());
        r = str_concat(r.as_str(), "\n");
        r = str_concat(r.as_str(), ind.as_str());
        r = str_concat(r.as_str(), "}\n");
        proof {
            reveal(pp_bank);
            assert(r@ =~= pp_bank(*self, level as nat));
        }
        r
    }
}

impl Component {
    /// Renders the component in the author dialect.
    pub fn pretty_print(&self) -> (r: String)
        requires
            forall|i: int| 0 <= i < self.banks@.len() ==> bank_pp_wf(#[trigger] self.banks@[i]),
        ensures
            r@ == pp_component(*self),
    {
        let mut r = str_concat("memory<", fmt_u64(self.width).as_str());
        r = str_concat(r.as_str(), ",");
        r = str_concat(r.as_str(), fmt_u64(self.size).as_str());
        r = str_concat(r.as_str(), "> {\n");
        let ghost header = "memory<"@ + dec_str(self.width as nat) + ","@ + dec_str(
            self.size as nat,
        ) + "> {\n"@;
        proof {
            assert(r@ =~= header);
        }
        let mut k: usize = 0;
        while k < self.banks.len()
            invariant
                forall|i: int| 0 <= i < self.banks@.len() ==> bank_pp_wf(#[trigger] self.banks@[i]),
                k <= self.banks@.len(),
                header == "memory<"@ + dec_str(self.width as nat) + ","@ + dec_str(
                    self.size as nat,
                ) + "> {\n"@,
                r@ == header + pp_banks(self.banks@.subrange(0, k as int)),
            decreases self.banks@.len() - k,
        {
            r = str_concat(r.as_str(), self.banks[k].pretty_print(1).as_str());
            r = str_concat(r.as_str(), "\n");
            proof {
                assert(self.banks@.subrange(0, k as int + 1) =~= self.banks@.subrange(
                    0,
                    k as int,
                ).push(self.banks@[k as int]));
                lemma_pp_banks_push(self.banks@.subrange(0, k as int), self.banks@[k as int]);
                assert(r@ =~= header + pp_banks(self.banks@.subrange(0, k as int + 1)));
            }
            k = k + 1;
        }
        r = str_concat(r.as_str(), "}\n");
        proof {
            assert(self.banks@.subrange(0, self.banks@.len() as int) =~= self.banks@);
            assert(r@ =~= pp_component(*self));
        }
        r
    }
}

impl MemoryLayout {
    /// Renders the range as `[start:finish:stride]`.
    pub fn pretty_print(&self) -> (r: String)
        ensures
            r@ == pp_range(*self),
    {
        match self {
            MemoryLayout::Range { start, finish, stride } => {
                let r = str_concat("[", fmt_u64(*start as u64).as_str());
                let r = str_concat(r.as_str(), ":");
                let r = str_concat(r.as_str(), fmt_u64(*finish as u64).as_str());
                let r = str_concat(r.as_str(), ":");
                let r = str_concat(r.as_str(), fmt_u64(*stride as u64).as_str());
                let r = str_concat(r.as_str(), "]");
                proof {
                    assert(r@ =~= pp_range(*self));
                }
                r
            },
        }
    }
}

} // verus!
