//! The description language: a recursive-descent reader for memory layouts,
//! routing programs, banks and components.
//!
//! Two dialects share these productions.  The author dialect writes numbers
//! in decimal and may omit a range's stride; the solver-echo dialect writes
//! numbers as `0x...` hex and always carries the stride.  The reader accepts
//! both number forms everywhere, so each entry point serves its dialect.
//!
//! Every executable reader returns exactly what its spec-level companion
//! denotes; a failure carries the input position at which it arose.

use crate::component::{Component, MemoryBank};
use crate::layout::{MemoryLayout, TopLevelMemoryLayout};
use crate::routing::{
    ComparisonOperator,
    Condition,
    SequenceRoutingProg,
    TerminalRoutingProgram,
    TopLevelRoutingProgram,
};
use crate::ParseError;
use vstd::prelude::*;

verus! {

/// Spec-level image of a sequence program, with a mathematical sequence in
/// place of the vector.
#[verifier::ext_equal]
pub enum SeqProgModel {
    Sequence(Seq<TerminalRoutingProgram>),
    Prog(TerminalRoutingProgram),
}

/// Spec-level image of a top-level routing program.
#[verifier::ext_equal]
pub enum TopProgModel {
    Switch(Seq<(Condition, SeqProgModel)>, SeqProgModel),
    Prog(SeqProgModel),
}

/// Spec-level image of a bank.
#[verifier::ext_equal]
pub struct BankModel {
    pub routing: TopProgModel,
    pub layout: Seq<MemoryLayout>,
}

/// Spec-level image of a component as the parser reads it.
#[verifier::ext_equal]
pub struct ComponentModel {
    pub width: u64,
    pub size: u64,
    pub banks: Seq<BankModel>,
}

/// The image of a sequence program.
pub open spec fn seq_prog_view(p: SequenceRoutingProg) -> SeqProgModel {
    match p {
        SequenceRoutingProg::Sequence(v) => SeqProgModel::Sequence(v@),
        SequenceRoutingProg::Prog(t) => SeqProgModel::Prog(t),
    }
}

/// The image of a top-level routing program.
pub open spec fn top_prog_view(p: TopLevelRoutingProgram) -> TopProgModel {
    match p {
        TopLevelRoutingProgram::Switch(cases, dflt) => TopProgModel::Switch(
            cases@.map_values(|cp: (Condition, SequenceRoutingProg)| (cp.0, seq_prog_view(cp.1))),
            seq_prog_view(*dflt),
        ),
        TopLevelRoutingProgram::Prog(s) => TopProgModel::Prog(seq_prog_view(s)),
    }
}

/// The image of a bank.
pub open spec fn bank_view(b: MemoryBank) -> BankModel {
    BankModel { routing: top_prog_view(b.routing), layout: b.memory_layout.mems@ }
}

/// The image of a component.
pub open spec fn component_view(c: Component) -> ComponentModel {
    ComponentModel {
        width: c.width,
        size: c.size,
        banks: c.banks@.map_values(|b: MemoryBank| bank_view(b)),
    }
}

/// Relies on str::chars: yields the characters of the string in order.
#[verifier::external_body]
pub(crate) fn str_chars(s: &str) -> (r: Vec<char>)
    ensures
        r@ == s@,
{
    s.chars().collect()
}

/// Whitespace between tokens.
pub open spec fn is_ws(c: char) -> bool {
    c == ' ' || c == '\t' || c == '\n' || c == '\r'
}

/// First position at or after `i` that does not hold whitespace.
pub open spec fn skip_ws(s: Seq<char>, i: int) -> int
    recommends
        0 <= i <= s.len(),
    decreases s.len() - i,
{
    if 0 <= i < s.len() && is_ws(s[i]) {
        skip_ws(s, i + 1)
    } else {
        i
    }
}

/// Skipping whitespace stays within the input.
pub proof fn lemma_skip_ws_bounds(s: Seq<char>, i: int)
    requires
        0 <= i <= s.len(),
    ensures
        i <= skip_ws(s, i) <= s.len(),
    decreases s.len() - i,
{
    if i < s.len() && is_ws(s[i]) {
        lemma_skip_ws_bounds(s, i + 1);
    }
}

/// A decimal digit.
pub open spec fn is_digit(c: char) -> bool {
    '0' <= c <= '9'
}

/// Value of a decimal digit.
pub open spec fn digit_val(c: char) -> nat {
    (c as nat - 48) as nat
}

/// A hexadecimal digit.
pub open spec fn is_hex_digit(c: char) -> bool {
    is_digit(c) || ('a' <= c <= 'f') || ('A' <= c <= 'F')
}

/// Value of a hexadecimal digit.
pub open spec fn hex_val(c: char) -> nat {
    if is_digit(c) {
        digit_val(c)
    } else if 'a' <= c <= 'f' {
        (c as nat - 87) as nat
    } else {
        (c as nat - 55) as nat
    }
}

/// Reads decimal digits starting at `i`, folding them onto `acc`; yields the
/// accumulated value and the first position past the digits.
pub open spec fn scan_dec(s: Seq<char>, i: int, acc: nat) -> (nat, int)
    recommends
        0 <= i <= s.len(),
    decreases s.len() - i,
{
    if 0 <= i < s.len() && is_digit(s[i]) {
        scan_dec(s, i + 1, acc * 10 + digit_val(s[i]))
    } else {
        (acc, i)
    }
}

/// Reads hexadecimal digits starting at `i`.
pub open spec fn scan_hex(s: Seq<char>, i: int, acc: nat) -> (nat, int)
    recommends
        0 <= i <= s.len(),
    decreases s.len() - i,
{
    if 0 <= i < s.len() && is_hex_digit(s[i]) {
        scan_hex(s, i + 1, acc * 16 + hex_val(s[i]))
    } else {
        (acc, i)
    }
}

/// Reads a number: `0x` followed by hex digits, or decimal digits.  Fails at
/// the start position when no digit is present or the value does not fit in
/// 64 bits.
pub open spec fn sp_num(s: Seq<char>, i: int) -> Result<(u64, int), int>
    recommends
        0 <= i <= s.len(),
{
    let j = skip_ws(s, i);
    if j + 1 < s.len() && s[j] == '0' && s[j + 1] == 'x' {
        if j + 2 < s.len() && is_hex_digit(s[j + 2]) {
            let (v, p) = scan_hex(s, j + 2, 0);
            if v < 0x1_0000_0000_0000_0000 {
                Ok(((v as u64), p))
            } else {
                Err(j)
            }
        } else {
            Err(j)
        }
    } else if j < s.len() && is_digit(s[j]) {
        let (v, p) = scan_dec(s, j, 0);
        if v < 0x1_0000_0000_0000_0000 {
            Ok(((v as u64), p))
        } else {
            Err(j)
        }
    } else {
        Err(j)
    }
}

/// Whether `lit` occurs verbatim at position `j`.
pub open spec fn lit_at(s: Seq<char>, j: int, lit: Seq<char>) -> bool {
    0 <= j && j + lit.len() <= s.len() && s.subrange(j, j + lit.len()) == lit
}

/// Expects `lit` after optional whitespace; yields the position past it.
pub open spec fn sp_lit(s: Seq<char>, i: int, lit: Seq<char>) -> Result<int, int>
    recommends
        0 <= i <= s.len(),
{
    let j = skip_ws(s, i);
    if lit_at(s, j, lit) {
        Ok(j + lit.len())
    } else {
        Err(j)
    }
}

/// Reads one range `[start:finish:stride]`; the stride may be omitted and
/// is then 1.  Fails when the bounds are empty or the stride is zero, or a
/// bound does not fit in a machine word.
#[verifier::opaque]
pub open spec fn sp_range(s: Seq<char>, i: int) -> Result<(MemoryLayout, int), int>
    recommends
        0 <= i <= s.len(),
{
    match sp_lit(s, i, "["@) {
        Err(e) => Err(e),
        Ok(p0) => match sp_num(s, p0) {
            Err(e) => Err(e),
            Ok((start, p1)) => match sp_lit(s, p1, ":"@) {
                Err(e) => Err(e),
                Ok(p2) => match sp_num(s, p2) {
                    Err(e) => Err(e),
                    Ok((finish, p3)) => match sp_lit(s, p3, ":"@) {
                        Ok(p4) => match sp_num(s, p4) {
                            Err(e) => Err(e),
                            Ok((stride, p5)) => match sp_lit(s, p5, "]"@) {
                                Err(e) => Err(e),
                                Ok(p6) => sp_range_build(start, finish, stride, p6, skip_ws(s, i)),
                            },
                        },
                        Err(_) => match sp_lit(s, p3, "]"@) {
                            Err(e) => Err(e),
                            Ok(p6) => sp_range_build(start, finish, 1, p6, skip_ws(s, i)),
                        },
                    },
                },
            },
        },
    }
}

/// Checks the semantic side conditions of a range.
pub open spec fn sp_range_build(start: u64, finish: u64, stride: u64, p: int, at: int) -> Result<
    (MemoryLayout, int),
    int,
> {
    if start < finish && stride >= 1 && finish <= usize::MAX && stride <= usize::MAX {
        Ok(
            (
                MemoryLayout::Range {
                    start: start as usize,
                    finish: finish as usize,
                    stride: stride as usize,
                },
                p,
            ),
        )
    } else {
        Err(at)
    }
}

/// Reads the remaining `, range` items of a bracketed range list, up to the
/// closing bracket.
#[verifier::opaque]
pub open spec fn sp_ranges_tail(s: Seq<char>, i: int) -> Result<(Seq<MemoryLayout>, int), int>
    recommends
        0 <= i <= s.len(),
    decreases s.len() - i,
{
    if i > s.len() {
        Err(i)
    } else {
        match sp_lit(s, i, "]"@) {
            Ok(p) => Ok((Seq::empty(), p)),
            Err(_) => match sp_lit(s, i, ","@) {
                Err(e) => Err(e),
                Ok(p0) => {
                    let p0c = if p0 > i {
                        p0
                    } else {
                        i + 1
                    };
                    if p0c > s.len() {
                        Err(i)
                    } else {
                        match sp_range(s, p0c) {
                            Err(e) => Err(e),
                            Ok((m, p1)) => {
                                let p1c = if p1 > p0c {
                                    p1
                                } else {
                                    p0c + 1
                                };
                                if p1c > s.len() {
                                    Err(i)
                                } else {
                                    match sp_ranges_tail(s, p1c) {
                                        Err(e) => Err(e),
                                        Ok((rest, p2)) => Ok((seq![m] + rest, p2)),
                                    }
                                }
                            },
                        }
                    }
                },
            },
        }
    }
}

/// Reads a top-level layout: either a bracketed list of ranges or a single
/// range.
#[verifier::opaque]
pub open spec fn sp_layout(s: Seq<char>, i: int) -> Result<(Seq<MemoryLayout>, int), int>
    recommends
        0 <= i <= s.len(),
{
    let j = skip_ws(s, i);
    if j < s.len() && s[j] == '[' {
        let k = skip_ws(s, j + 1);
        if k < s.len() && s[k] == '[' {
            match sp_range(s, k) {
                Err(e) => Err(e),
                Ok((m, p1)) => {
                    let p1c = if p1 > k {
                        p1
                    } else {
                        k + 1
                    };
                    if p1c > s.len() {
                        Err(j)
                    } else {
                        match sp_ranges_tail(s, p1c) {
                            Err(e) => Err(e),
                            Ok((rest, p2)) => Ok((seq![m] + rest, p2)),
                        }
                    }
                },
            }
        } else {
            match sp_range(s, j) {
                Err(e) => Err(e),
                Ok((m, p)) => Ok((seq![m], p)),
            }
        }
    } else {
        Err(j)
    }
}

/// Reads one terminal transform.
#[verifier::opaque]
pub open spec fn sp_terminal(s: Seq<char>, i: int) -> Result<(TerminalRoutingProgram, int), int>
    recommends
        0 <= i <= s.len(),
{
    let j = skip_ws(s, i);
    if lit_at(s, j, "NOOP"@) {
        Ok((TerminalRoutingProgram::Noop, j + 4))
    } else if lit_at(s, j, "INPUT"@) {
        let k = skip_ws(s, j + 5);
        if lit_at(s, k, ">>"@) {
            match sp_num(s, k + 2) {
                Err(e) => Err(e),
                Ok((n, p)) => if n <= usize::MAX {
                    Ok((TerminalRoutingProgram::RShift(n as usize), p))
                } else {
                    Err(k)
                },
            }
        } else if k < s.len() && s[k] == '+' {
            match sp_num(s, k + 1) {
                Err(e) => Err(e),
                Ok((n, p)) => Ok((TerminalRoutingProgram::Add(n), p)),
            }
        } else if k < s.len() && s[k] == '-' {
            match sp_num(s, k + 1) {
                Err(e) => Err(e),
                Ok((n, p)) => Ok((TerminalRoutingProgram::SubPortVal(n), p)),
            }
        } else {
            Err(k)
        }
    } else {
        match sp_num(s, j) {
            Err(e) => Err(e),
            Ok((n, p)) => {
                let k = skip_ws(s, p);
                if k < s.len() && s[k] == '-' {
                    match sp_lit(s, k + 1, "INPUT"@) {
                        Err(e) => Err(e),
                        Ok(p2) => Ok((TerminalRoutingProgram::SubValPort(n), p2)),
                    }
                } else {
                    Ok((TerminalRoutingProgram::Constant(n), p))
                }
            },
        }
    }
}

/// Reads the remaining `, terminal` items of a bracketed sequence, up to the
/// closing bracket.
#[verifier::opaque]
pub open spec fn sp_terminals_tail(s: Seq<char>, i: int) -> Result<
    (Seq<TerminalRoutingProgram>, int),
    int,
>
    recommends
        0 <= i <= s.len(),
    decreases s.len() - i,
{
    if i > s.len() {
        Err(i)
    } else {
        match sp_lit(s, i, "]"@) {
            Ok(p) => Ok((Seq::empty(), p)),
            Err(_) => match sp_lit(s, i, ","@) {
                Err(e) => Err(e),
                Ok(p0) => {
                    let p0c = if p0 > i {
                        p0
                    } else {
                        i + 1
                    };
                    if p0c > s.len() {
                        Err(i)
                    } else {
                        match sp_terminal(s, p0c) {
                            Err(e) => Err(e),
                            Ok((t, p1)) => {
                                let p1c = if p1 > p0c {
                                    p1
                                } else {
                                    p0c + 1
                                };
                                if p1c > s.len() {
                                    Err(i)
                                } else {
                                    match sp_terminals_tail(s, p1c) {
                                        Err(e) => Err(e),
                                        Ok((rest, p2)) => Ok((seq![t] + rest, p2)),
                                    }
                                }
                            },
                        }
                    }
                },
            },
        }
    }
}

/// Reads a sequence program: a bracketed terminal list, or one terminal.
#[verifier::opaque]
pub open spec fn sp_seq_prog(s: Seq<char>, i: int) -> Result<(SeqProgModel, int), int>
    recommends
        0 <= i <= s.len(),
{
    let j = skip_ws(s, i);
    if j < s.len() && s[j] == '[' {
        match sp_terminal(s, j + 1) {
            Err(e) => Err(e),
            Ok((t, p1)) => {
                let p1c = if p1 > j + 1 {
                    p1
                } else {
                    j + 2
                };
                if p1c > s.len() {
                    Err(j)
                } else {
                    match sp_terminals_tail(s, p1c) {
                        Err(e) => Err(e),
                        Ok((rest, p2)) => Ok((SeqProgModel::Sequence(seq![t] + rest), p2)),
                    }
                }
            },
        }
    } else {
        match sp_terminal(s, j) {
            Err(e) => Err(e),
            Ok((t, p)) => Ok((SeqProgModel::Prog(t), p)),
        }
    }
}

/// Reads a comparison operator.
pub open spec fn sp_cmp_op(s: Seq<char>, i: int) -> Result<(ComparisonOperator, int), int>
    recommends
        0 <= i <= s.len(),
{
    let j = skip_ws(s, i);
    if lit_at(s, j, "<="@) {
        Ok((ComparisonOperator::LessThanOrEqual, j + 2))
    } else if lit_at(s, j, ">="@) {
        Ok((ComparisonOperator::GreaterThanOrEqual, j + 2))
    } else if lit_at(s, j, "=="@) {
        Ok((ComparisonOperator::Equal, j + 2))
    } else if lit_at(s, j, "!="@) {
        Ok((ComparisonOperator::NotEqual, j + 2))
    } else if j < s.len() && s[j] == '<' {
        Ok((ComparisonOperator::LessThan, j + 1))
    } else if j < s.len() && s[j] == '>' {
        Ok((ComparisonOperator::GreaterThan, j + 1))
    } else {
        Err(j)
    }
}

/// Reads a single comparison: `INPUT op n` or `n op INPUT`.
#[verifier::opaque]
pub open spec fn sp_comparison(s: Seq<char>, i: int) -> Result<(Condition, int), int>
    recommends
        0 <= i <= s.len(),
{
    let j = skip_ws(s, i);
    if lit_at(s, j, "INPUT"@) {
        match sp_cmp_op(s, j + 5) {
            Err(e) => Err(e),
            Ok((op, p1)) => match sp_num(s, p1) {
                Err(e) => Err(e),
                Ok((n, p2)) => Ok((Condition::ComparisonPortVal(n, op), p2)),
            },
        }
    } else {
        match sp_num(s, j) {
            Err(e) => Err(e),
            Ok((n, p1)) => match sp_cmp_op(s, p1) {
                Err(e) => Err(e),
                Ok((op, p2)) => match sp_lit(s, p2, "INPUT"@) {
                    Err(e) => Err(e),
                    Ok(p3) => Ok((Condition::ComparisonValPort(n, op), p3)),
                },
            },
        }
    }
}

/// Reads a condition: a comparison, a negation `!( c )`, or a parenthesized
/// conjunction or disjunction `( c && c )` / `( c || c )`.
#[verifier::opaque]
pub open spec fn sp_cond(s: Seq<char>, i: int) -> Result<(Condition, int), int>
    recommends
        0 <= i <= s.len(),
    decreases s.len() - i, 1int,
{
    let j = skip_ws(s, i);
    if j < s.len() && s[j] == '!' {
        match sp_lit(s, j + 1, "("@) {
            Err(e) => Err(e),
            Ok(p0) => {
                let p0c = if p0 > j + 1 {
                    p0
                } else {
                    j + 2
                };
                if p0c > s.len() || p0c <= i {
                    Err(j)
                } else {
                    match sp_cond(s, p0c) {
                        Err(e) => Err(e),
                        Ok((c, p1)) => match sp_lit(s, p1, ")"@) {
                            Err(e) => Err(e),
                            Ok(p2) => Ok((Condition::Not(Box::new(c)), p2)),
                        },
                    }
                }
            },
        }
    } else if j < s.len() && s[j] == '(' {
        sp_cond_binary(s, i, j)
    } else {
        sp_comparison(s, i)
    }
}

/// Reads the body of a parenthesized binary condition, `j` being the
/// position of the opening parenthesis.
#[verifier::opaque]
pub open spec fn sp_cond_binary(s: Seq<char>, i: int, j: int) -> Result<(Condition, int), int>
    recommends
        0 <= i <= s.len(),
        j == skip_ws(s, i),
        j < s.len(),
    decreases s.len() - i, 0int,
{
    if j + 1 > s.len() || j + 1 <= i {
        Err(j)
    } else {
        match sp_cond(s, j + 1) {
            Err(e) => Err(e),
            Ok((c1, p1)) => {
                let k = skip_ws(s, p1);
                let and_here = lit_at(s, k, "&&"@);
                let or_here = lit_at(s, k, "||"@);
                if !and_here && !or_here {
                    Err(k)
                } else if k + 2 > s.len() || k + 2 <= i {
                    Err(k)
                } else {
                    match sp_cond(s, k + 2) {
                        Err(e) => Err(e),
                        Ok((c2, p2)) => match sp_lit(s, p2, ")"@) {
                            Err(e) => Err(e),
                            Ok(p3) => if and_here {
                                Ok((Condition::And(Box::new(c1), Box::new(c2)), p3))
                            } else {
                                Ok((Condition::Or(Box::new(c1), Box::new(c2)), p3))
                            },
                        },
                    }
                }
            },
        }
    }
}

/// Reads the cases of a switch up to and including the default, which is
/// introduced by a bare `->`.
#[verifier::opaque]
pub open spec fn sp_switch_tail(s: Seq<char>, i: int) -> Result<
    (Seq<(Condition, SeqProgModel)>, SeqProgModel, int),
    int,
>
    recommends
        0 <= i <= s.len(),
    decreases s.len() - i,
{
    if i > s.len() {
        Err(i)
    } else {
        match sp_lit(s, i, "->"@) {
            Ok(p0) => match sp_seq_prog(s, p0) {
                Err(e) => Err(e),
                Ok((dflt, p1)) => Ok((Seq::empty(), dflt, p1)),
            },
            Err(_) => match sp_cond(s, i) {
                Err(e) => Err(e),
                Ok((c, p1)) => match sp_lit(s, p1, "->"@) {
                    Err(e) => Err(e),
                    Ok(p2) => match sp_seq_prog(s, p2) {
                        Err(e) => Err(e),
                        Ok((body, p3)) => match sp_lit(s, p3, ","@) {
                            Err(e) => Err(e),
                            Ok(p4) => {
                                let p4c = if p4 > i {
                                    p4
                                } else {
                                    i + 1
                                };
                                if p4c > s.len() {
                                    Err(i)
                                } else {
                                    match sp_switch_tail(s, p4c) {
                                        Err(e) => Err(e),
                                        Ok((cases, dflt, p5)) => Ok(
                                            (seq![(c, body)] + cases, dflt, p5),
                                        ),
                                    }
                                }
                            },
                        },
                    },
                },
            },
        }
    }
}

/// Reads a top-level routing program: a switch block or a sequence program.
#[verifier::opaque]
pub open spec fn sp_top_prog(s: Seq<char>, i: int) -> Result<(TopProgModel, int), int>
    recommends
        0 <= i <= s.len(),
{
    let j = skip_ws(s, i);
    if lit_at(s, j, "switch"@) {
        match sp_lit(s, j + 6, "{"@) {
            Err(e) => Err(e),
            Ok(p0) => {
                let p0c = if p0 > i {
                    p0
                } else {
                    i + 1
                };
                if p0c > s.len() {
                    Err(j)
                } else {
                    match sp_switch_tail(s, p0c) {
                        Err(e) => Err(e),
                        Ok((cases, dflt, p1)) => match sp_lit(s, p1, "}"@) {
                            Err(e) => Err(e),
                            Ok(p2) => Ok((TopProgModel::Switch(cases, dflt), p2)),
                        },
                    }
                }
            },
        }
    } else {
        match sp_seq_prog(s, i) {
            Err(e) => Err(e),
            Ok((p, p1)) => Ok((TopProgModel::Prog(p), p1)),
        }
    }
}

/// Reads one bank: its layout, then its translation.  The comma after the
/// layout may be omitted.
#[verifier::opaque]
pub open spec fn sp_bank(s: Seq<char>, i: int) -> Result<(BankModel, int), int>
    recommends
        0 <= i <= s.len(),
{
    match sp_lit(s, i, "bank"@) {
        Err(e) => Err(e),
        Ok(p0) => match sp_lit(s, p0, "{"@) {
            Err(e) => Err(e),
            Ok(p1) => match sp_lit(s, p1, "layout"@) {
                Err(e) => Err(e),
                Ok(p2) => match sp_lit(s, p2, ":"@) {
                    Err(e) => Err(e),
                    Ok(p3) => {
                        let p3c = if p3 > i {
                            p3
                        } else {
                            i + 1
                        };
                        if p3c > s.len() {
                            Err(p3)
                        } else {
                            match sp_layout(s, p3c) {
                                Err(e) => Err(e),
                                Ok((ms, p4)) => {
                                    let p5 = match sp_lit(s, p4, ","@) {
                                        Ok(q) => q,
                                        Err(_) => p4,
                                    };
                                    let p5c = if p5 > i && p5 <= s.len() {
                                        p5
                                    } else {
                                        i + 1
                                    };
                                    if p5c > s.len() {
                                        Err(p4)
                                    } else {
                                        sp_bank_rest(s, i, ms, p5c)
                                    }
                                },
                            }
                        }
                    },
                },
            },
        },
    }
}

/// Reads the translation part of a bank and closes the block.
pub open spec fn sp_bank_rest(s: Seq<char>, i: int, ms: Seq<MemoryLayout>, p: int) -> Result<
    (BankModel, int),
    int,
>
    recommends
        0 <= p <= s.len(),
{
    match sp_lit(s, p, "translation"@) {
        Err(e) => Err(e),
        Ok(q0) => match sp_lit(s, q0, ":"@) {
            Err(e) => Err(e),
            Ok(q1) => {
                let q1c = if q1 > p && q1 <= s.len() {
                    q1
                } else {
                    p
                };
                match sp_top_prog(s, q1c) {
                    Err(e) => Err(e),
                    Ok((tp, q2)) => match sp_lit(s, q2, "}"@) {
                        Err(e) => Err(e),
                        Ok(q3) => Ok((BankModel { routing: tp, layout: ms }, q3)),
                    },
                }
            },
        },
    }
}

/// Reads the banks of a component up to the closing brace.
#[verifier::opaque]
pub open spec fn sp_banks_tail(s: Seq<char>, i: int) -> Result<(Seq<BankModel>, int), int>
    recommends
        0 <= i <= s.len(),
    decreases s.len() - i,
{
    if i > s.len() {
        Err(i)
    } else {
        match sp_lit(s, i, "}"@) {
            Ok(p) => Ok((Seq::empty(), p)),
            Err(_) => match sp_bank(s, i) {
                Err(e) => Err(e),
                Ok((b, p1)) => {
                    let p1c = if p1 > i {
                        p1
                    } else {
                        i + 1
                    };
                    if p1c > s.len() {
                        Err(i)
                    } else {
                        match sp_banks_tail(s, p1c) {
                            Err(e) => Err(e),
                            Ok((rest, p2)) => Ok((seq![b] + rest, p2)),
                        }
                    }
                },
            },
        }
    }
}

/// Reads a whole component: `memory<width,size> { bank ... }` with at least
/// one bank, followed only by whitespace.
#[verifier::opaque]
pub open spec fn sp_component(s: Seq<char>) -> Result<ComponentModel, int> {
    match sp_lit(s, 0, "memory"@) {
        Err(e) => Err(e),
        Ok(p0) => match sp_lit(s, p0, "<"@) {
            Err(e) => Err(e),
            Ok(p1) => match sp_num(s, p1) {
                Err(e) => Err(e),
                Ok((width, p2)) => match sp_lit(s, p2, ","@) {
                    Err(e) => Err(e),
                    Ok(p3) => match sp_num(s, p3) {
                        Err(e) => Err(e),
                        Ok((size, p4)) => match sp_lit(s, p4, ">"@) {
                            Err(e) => Err(e),
                            Ok(p5) => match sp_lit(s, p5, "{"@) {
                                Err(e) => Err(e),
                                Ok(p6) => {
                                    let p6c = if p6 > 0 && p6 <= s.len() {
                                        p6
                                    } else {
                                        0
                                    };
                                    match sp_banks_tail(s, p6c) {
                                        Err(e) => Err(e),
                                        Ok((banks, p7)) => if banks.len() == 0 {
                                            Err(p6c)
                                        } else if skip_ws(s, p7) != s.len() {
                                            Err(skip_ws(s, p7))
                                        } else if size > usize::MAX {
                                            Err(0)
                                        } else {
                                            Ok(ComponentModel { width, size, banks })
                                        },
                                    }
                                },
                            },
                        },
                    },
                },
            },
        },
    }
}

fn p_skip_ws(cs: &Vec<char>, i: usize) -> (r: usize)
    requires
        i <= cs@.len(),
    ensures
        r == skip_ws(cs@, i as int),
        i <= r <= cs@.len(),
        skip_ws(cs@, r as int) == r as int,
        cs@.len() <= usize::MAX,
{
    let mut j = i;
    while j < cs.len() && (cs[j] == ' ' || cs[j] == '\t' || cs[j] == '\n' || cs[j] == '\r')
        invariant
            i <= j <= cs@.len(),
            skip_ws(cs@, i as int) == skip_ws(cs@, j as int),
        decreases cs@.len() - j,
    {
        j = j + 1;
    }
    j
}

fn p_lit(cs: &Vec<char>, i: usize, lit: &str) -> (r: Result<usize, usize>)
    requires
        i <= cs@.len(),
    ensures
        match r {
            Ok(p) => sp_lit(cs@, i as int, lit@) == Ok::<int, int>(p as int) && i <= p
                <= cs@.len(),
            Err(e) => sp_lit(cs@, i as int, lit@) == Err::<int, int>(e as int) && e <= cs@.len(),
        },
        cs@.len() <= usize::MAX,
{
    let lv = str_chars(lit);
    let j = p_skip_ws(cs, i);
    if lv.len() > cs.len() || j > cs.len() - lv.len() {
        proof {
            assert(!lit_at(cs@, j as int, lit@));
        }
        return Err(j);
    }
    let mut k: usize = 0;
    while k < lv.len()
        invariant
            cs@.len() <= usize::MAX,
            j + lv.len() <= cs@.len(),
            k <= lv@.len(),
            lv@ == lit@,
            j == skip_ws(cs@, i as int),
            forall|t: int| 0 <= t < k ==> cs@[j + t] == lit@[t],
        decreases lv@.len() - k,
    {
        proof {
            assert(j + k < cs@.len());
        }
        let idx = j + k;
        if cs[idx] != lv[k] {
            proof {
                assert(cs@.subrange(j as int, j + lit@.len())[k as int] != lit@[k as int]);
                assert(!lit_at(cs@, j as int, lit@));
            }
            return Err(j);
        }
        k = k + 1;
    }
    proof {
        assert(cs@.subrange(j as int, j + lit@.len()) =~= lit@);
    }
    Ok(j + lv.len())
}

fn p_num(cs: &Vec<char>, i: usize) -> (r: Result<(u64, usize), usize>)
    requires
        i <= cs@.len(),
    ensures
        match r {
            Ok((v, p)) => sp_num(cs@, i as int) == Ok::<(u64, int), int>((v, p as int)) && i <= p
                <= cs@.len(),
            Err(e) => sp_num(cs@, i as int) == Err::<(u64, int), int>(e as int) && e <= cs@.len(),
        },
{
    let j = p_skip_ws(cs, i);
    if j < cs.len() && j + 1 < cs.len() && cs[j] == '0' && cs[j + 1] == 'x' {
        if j + 2 < cs.len() && is_hex_digit_x(cs[j + 2]) {
            let mut p: usize = j + 2;
            let mut acc: u64 = 0;
            let mut over: bool = false;
            let ghost mut acc_g: nat = 0nat;
            while p < cs.len() && is_hex_digit_x(cs[p])
                invariant
                    j + 2 <= p <= cs@.len(),
                    scan_hex(cs@, j + 2, 0) == scan_hex(cs@, p as int, acc_g),
                    over <==> acc_g >= 0x1_0000_0000_0000_0000,
                    !over ==> acc == acc_g,
                decreases cs@.len() - p,
            {
                let d = hex_digit_value(cs[p]);
                let ghost old_g = acc_g;
                match acc.checked_mul(16) {
                    Some(m) => match m.checked_add(d) {
                        Some(a) => {
                            acc = a;
                        },
                        None => {
                            over = true;
                        },
                    },
                    None => {
                        over = true;
                    },
                }
                proof {
                    acc_g = old_g * 16 + hex_val(cs@[p as int]);
                    if old_g >= 0x1_0000_0000_0000_0000 {
                        assert(old_g * 16 >= old_g) by (nonlinear_arith)
                            requires
                                old_g >= 0,
                        ;
                    }
                }
                p = p + 1;
            }
            if over {
                Err(j)
            } else {
                Ok((acc, p))
            }
        } else {
            Err(j)
        }
    } else if j < cs.len() && is_digit_x(cs[j]) {
        let mut p: usize = j;
        let mut acc: u64 = 0;
        let mut over: bool = false;
        let ghost mut acc_g: nat = 0nat;
        while p < cs.len() && is_digit_x(cs[p])
            invariant
                j <= p <= cs@.len(),
                scan_dec(cs@, j as int, 0) == scan_dec(cs@, p as int, acc_g),
                over <==> acc_g >= 0x1_0000_0000_0000_0000,
                !over ==> acc == acc_g,
            decreases cs@.len() - p,
        {
            let d = dec_digit_value(cs[p]);
            let ghost old_g = acc_g;
            match acc.checked_mul(10) {
                Some(m) => match m.checked_add(d) {
                    Some(a) => {
                        acc = a;
                    },
                    None => {
                        over = true;
                    },
                },
                None => {
                    over = true;
                },
            }
            proof {
                acc_g = old_g * 10 + digit_val(cs@[p as int]);
                if old_g >= 0x1_0000_0000_0000_0000 {
                    assert(old_g * 10 >= old_g) by (nonlinear_arith)
                        requires
                            old_g >= 0,
                    ;
                }
            }
            p = p + 1;
        }
        if over {
            Err(j)
        } else {
            Ok((acc, p))
        }
    } else {
        Err(j)
    }
}

/// Whether the character is a decimal digit.
fn is_digit_x(c: char) -> (r: bool)
    ensures
        r == is_digit(c),
{
    c >= '0' && c <= '9'
}

/// Whether the character is a hexadecimal digit.
fn is_hex_digit_x(c: char) -> (r: bool)
    ensures
        r == is_hex_digit(c),
{
    (c >= '0' && c <= '9') || (c >= 'a' && c <= 'f') || (c >= 'A' && c <= 'F')
}

/// The value of a decimal digit character.
fn dec_digit_value(c: char) -> (r: u64)
    requires
        is_digit(c),
    ensures
        r == digit_val(c),
        r <= 9,
{
    (c as u64) - 48
}

/// The value of a hexadecimal digit character.
fn hex_digit_value(c: char) -> (r: u64)
    requires
        is_hex_digit(c),
    ensures
        r == hex_val(c),
        r <= 15,
{
    if c >= '0' && c <= '9' {
        (c as u64) - 48
    } else if c >= 'a' && c <= 'f' {
        (c as u64) - 87
    } else {
        (c as u64) - 55
    }
}

#[verifier::rlimit(60)]
fn p_range(cs: &Vec<char>, i: usize) -> (r: Result<(MemoryLayout, usize), usize>)
    requires
        i <= cs@.len(),
    ensures
        match r {
            Ok((m, p)) => sp_range(cs@, i as int) == Ok::<(MemoryLayout, int), int>((
                m,
                p as int,
            )) && p <= cs@.len() && crate::layout::layout_wf(m),
            Err(e) => sp_range(cs@, i as int) == Err::<(MemoryLayout, int), int>(e as int) && e
                <= cs@.len(),
        },
{
    proof {
        reveal(sp_range);
    }
    let p0 = match p_lit(cs, i, "[") {
        Ok(p) => p,
        Err(e) => {
            return Err(e);
        },
    };
    let (start, p1) = match p_num(cs, p0) {
        Ok(v) => v,
        Err(e) => {
            return Err(e);
        },
    };
    let p2 = match p_lit(cs, p1, ":") {
        Ok(p) => p,
        Err(e) => {
            return Err(e);
        },
    };
    let (finish, p3) = match p_num(cs, p2) {
        Ok(v) => v,
        Err(e) => {
            return Err(e);
        },
    };
    let at = p_skip_ws(cs, i);
    match p_lit(cs, p3, ":") {
        Ok(p4) => {
            let (stride, p5) = match p_num(cs, p4) {
                Ok(v) => v,
                Err(e) => {
                    return Err(e);
                },
            };
            let p6 = match p_lit(cs, p5, "]") {
                Ok(p) => p,
                Err(e) => {
                    return Err(e);
                },
            };
            if start < finish && stride >= 1 && finish <= usize::MAX as u64 && stride
                <= usize::MAX as u64 {
                Ok(
                    (
                        MemoryLayout::Range {
                            start: start as usize,
                            finish: finish as usize,
                            stride: stride as usize,
                        },
                        p6,
                    ),
                )
            } else {
                Err(at)
            }
        },
        Err(_) => {
            let p6 = match p_lit(cs, p3, "]") {
                Ok(p) => p,
                Err(e) => {
                    return Err(e);
                },
            };
            if start < finish && finish <= usize::MAX as u64 {
                Ok(
                    (
                        MemoryLayout::Range {
                            start: start as usize,
                            finish: finish as usize,
                            stride: 1,
                        },
                        p6,
                    ),
                )
            } else {
                Err(at)
            }
        },
    }
}

fn p_ranges_tail(cs: &Vec<char>, i: usize) -> (r: Result<(Vec<MemoryLayout>, usize), usize>)
    requires
        i <= cs@.len(),
    ensures
        match r {
            Ok((v, p)) => sp_ranges_tail(cs@, i as int) == Ok::<(Seq<MemoryLayout>, int), int>((
                v@,
                p as int,
            )) && p <= cs@.len() && (forall|k: int|
                0 <= k < v@.len() ==> crate::layout::layout_wf(#[trigger] v@[k])),
            Err(e) => sp_ranges_tail(cs@, i as int) == Err::<(Seq<MemoryLayout>, int), int>(
                e as int,
            ) && e <= cs@.len(),
        },
    decreases cs@.len() - i,
{
    proof {
        reveal(sp_ranges_tail);
    }
    match p_lit(cs, i, "]") {
        Ok(p) => {
            let v: Vec<MemoryLayout> = Vec::new();
            proof {
                assert(v@ =~= Seq::<MemoryLayout>::empty());
            }
            Ok((v, p))
        },
        Err(_) => {
            let p0 = match p_lit(cs, i, ",") {
                Ok(p) => p,
                Err(e) => {
                    return Err(e);
                },
            };
            let p0c = if p0 > i {
                p0
            } else {
                if i >= cs.len() {
                    return Err(i);
                }
                i + 1
            };
            if p0c > cs.len() {
                return Err(i);
            }
            let (m, p1) = match p_range(cs, p0c) {
                Ok(v) => v,
                Err(e) => {
                    return Err(e);
                },
            };
            let p1c = if p1 > p0c {
                p1
            } else {
                if p0c >= cs.len() {
                    return Err(i);
                }
                p0c + 1
            };
            if p1c > cs.len() {
                return Err(i);
            }
            match p_ranges_tail(cs, p1c) {
                Ok((rest, p2)) => {
                    let ghost rest_view = rest@;
                    let mut v = rest;
                    v.insert(0, m);
                    proof {
                        assert(v@ =~= seq![m] + rest_view);
                    }
                    Ok((v, p2))
                },
                Err(e) => Err(e),
            }
        },
    }
}

#[verifier::rlimit(60)]
fn p_layout(cs: &Vec<char>, i: usize) -> (r: Result<(Vec<MemoryLayout>, usize), usize>)
    requires
        i <= cs@.len(),
    ensures
        match r {
            Ok((v, p)) => sp_layout(cs@, i as int) == Ok::<(Seq<MemoryLayout>, int), int>((
                v@,
                p as int,
            )) && p <= cs@.len() && v@.len() >= 1 && (forall|k: int|
                0 <= k < v@.len() ==> crate::layout::layout_wf(#[trigger] v@[k])),
            Err(e) => sp_layout(cs@, i as int) == Err::<(Seq<MemoryLayout>, int), int>(e as int)
                && e <= cs@.len(),
        },
{
    proof {
        reveal(sp_layout);
    }
    let j = p_skip_ws(cs, i);
    if j < cs.len() && cs[j] == '[' {
        let k = p_skip_ws(cs, j + 1);
        if k < cs.len() && cs[k] == '[' {
            let (m, p1) = match p_range(cs, k) {
                Ok(v) => v,
                Err(e) => {
                    return Err(e);
                },
            };
            let p1c = if p1 > k {
                p1
            } else {
                if k >= cs.len() {
                    return Err(j);
                }
                k + 1
            };
            if p1c > cs.len() {
                return Err(j);
            }
            match p_ranges_tail(cs, p1c) {
                Ok((rest, p2)) => {
                    let ghost rest_view = rest@;
                    let mut v = rest;
                    v.insert(0, m);
                    proof {
                        assert(v@ =~= seq![m] + rest_view);
                    }
                    Ok((v, p2))
                },
                Err(e) => Err(e),
            }
        } else {
            match p_range(cs, j) {
                Ok((m, p)) => {
                    let mut v: Vec<MemoryLayout> = Vec::new();
                    v.push(m);
                    proof {
                        assert(v@ =~= seq![m]);
                    }
                    Ok((v, p))
                },
                Err(e) => Err(e),
            }
        }
    } else {
        Err(j)
    }
}

#[verifier::rlimit(60)]
fn p_terminal(cs: &Vec<char>, i: usize) -> (r: Result<(TerminalRoutingProgram, usize), usize>)
    requires
        i <= cs@.len(),
    ensures
        match r {
            Ok((t, p)) => sp_terminal(cs@, i as int) == Ok::<(TerminalRoutingProgram, int), int>(
                (t, p as int),
            ) && p <= cs@.len(),
            Err(e) => sp_terminal(cs@, i as int) == Err::<(TerminalRoutingProgram, int), int>(
                e as int,
            ) && e <= cs@.len(),
        },
{
    proof {
        reveal(sp_terminal);
    }
    let j = p_skip_ws(cs, i);
    match p_lit(cs, j, "NOOP") {
        Ok(p) => {
            proof {
                assert(skip_ws(cs@, j as int) == j as int);
                assert(lit_at(cs@, j as int, "NOOP"@));
                proof_strlen_noop();
            }
            return Ok((TerminalRoutingProgram::Noop, p));
        },
        Err(_) => {},
    }
    if lit_here(cs, j, "INPUT") {
        proof {
            proof_strlen_input();
        }
        let k = p_skip_ws(cs, j + 5);
        if lit_here(cs, k, ">>") {
            proof {
                reveal_strlit(">>");
            }
            let (n, p) = match p_num(cs, k + 2) {
                Ok(v) => v,
                Err(e) => {
                    return Err(e);
                },
            };
            if n <= usize::MAX as u64 {
                Ok((TerminalRoutingProgram::RShift(n as usize), p))
            } else {
                Err(k)
            }
        } else if k < cs.len() && cs[k] == '+' {
            let (n, p) = match p_num(cs, k + 1) {
                Ok(v) => v,
                Err(e) => {
                    return Err(e);
                },
            };
            Ok((TerminalRoutingProgram::Add(n), p))
        } else if k < cs.len() && cs[k] == '-' {
            let (n, p) = match p_num(cs, k + 1) {
                Ok(v) => v,
                Err(e) => {
                    return Err(e);
                },
            };
            Ok((TerminalRoutingProgram::SubPortVal(n), p))
        } else {
            Err(k)
        }
    } else {
        let (n, p) = match p_num(cs, j) {
            Ok(v) => v,
            Err(e) => {
                return Err(e);
            },
        };
        let k = p_skip_ws(cs, p);
        if k < cs.len() && cs[k] == '-' {
            match p_lit(cs, k + 1, "INPUT") {
                Ok(p2) => Ok((TerminalRoutingProgram::SubValPort(n), p2)),
                Err(e) => Err(e),
            }
        } else {
            Ok((TerminalRoutingProgram::Constant(n), p))
        }
    }
}

/// Whether `lit` occurs verbatim at exactly position `j`, no whitespace
/// skipped.
fn lit_here(cs: &Vec<char>, j: usize, lit: &str) -> (r: bool)
    requires
        j <= cs@.len(),
    ensures
        r == lit_at(cs@, j as int, lit@),
{
    let lv = str_chars(lit);
    if lv.len() > cs.len() || j > cs.len() - lv.len() {
        proof {
            assert(!lit_at(cs@, j as int, lit@));
        }
        return false;
    }
    let mut k: usize = 0;
    while k < lv.len()
        invariant
            cs@.len() <= usize::MAX,
            j + lv.len() <= cs@.len(),
            k <= lv@.len(),
            lv@ == lit@,
            forall|t: int| 0 <= t < k ==> cs@[j + t] == lit@[t],
        decreases lv@.len() - k,
    {
        proof {
            assert(j + k < cs@.len());
        }
        let idx = j + k;
        if cs[idx] != lv[k] {
            proof {
                assert(cs@.subrange(j as int, j + lit@.len())[k as int] != lit@[k as int]);
                assert(!lit_at(cs@, j as int, lit@));
            }
            return false;
        }
        k = k + 1;
    }
    proof {
        assert(cs@.subrange(j as int, j + lit@.len()) =~= lit@);
    }
    true
}

proof fn proof_strlen_noop()
    ensures
        "NOOP"@.len() == 4,
{
    reveal_strlit("NOOP");
}

proof fn proof_strlen_input()
    ensures
        "INPUT"@.len() == 5,
{
    reveal_strlit("INPUT");
}

fn p_terminals_tail(cs: &Vec<char>, i: usize) -> (r: Result<
    (Vec<TerminalRoutingProgram>, usize),
    usize,
>)
    requires
        i <= cs@.len(),
    ensures
        match r {
            Ok((v, p)) => sp_terminals_tail(cs@, i as int) == Ok::<
                (Seq<TerminalRoutingProgram>, int),
                int,
            >((v@, p as int)) && p <= cs@.len(),
            Err(e) => sp_terminals_tail(cs@, i as int) == Err::<
                (Seq<TerminalRoutingProgram>, int),
                int,
            >(e as int) && e <= cs@.len(),
        },
    decreases cs@.len() - i,
{
    proof {
        reveal(sp_terminals_tail);
    }
    match p_lit(cs, i, "]") {
        Ok(p) => {
            let v: Vec<TerminalRoutingProgram> = Vec::new();
            proof {
                assert(v@ =~= Seq::<TerminalRoutingProgram>::empty());
            }
            Ok((v, p))
        },
        Err(_) => {
            let p0 = match p_lit(cs, i, ",") {
                Ok(p) => p,
                Err(e) => {
                    return Err(e);
                },
            };
            let p0c = if p0 > i {
                p0
            } else {
                if i >= cs.len() {
                    return Err(i);
                }
                i + 1
            };
            if p0c > cs.len() {
                return Err(i);
            }
            let (t, p1) = match p_terminal(cs, p0c) {
                Ok(v) => v,
                Err(e) => {
                    return Err(e);
                },
            };
            let p1c = if p1 > p0c {
                p1
            } else {
                if p0c >= cs.len() {
                    return Err(i);
                }
                p0c + 1
            };
            if p1c > cs.len() {
                return Err(i);
            }
            match p_terminals_tail(cs, p1c) {
                Ok((rest, p2)) => {
                    let ghost rest_view = rest@;
                    let mut v = rest;
                    v.insert(0, t);
                    proof {
                        assert(v@ =~= seq![t] + rest_view);
                    }
                    Ok((v, p2))
                },
                Err(e) => Err(e),
            }
        },
    }
}

#[verifier::rlimit(60)]
fn p_seq_prog(cs: &Vec<char>, i: usize) -> (r: Result<(SequenceRoutingProg, usize), usize>)
    requires
        i <= cs@.len(),
    ensures
        match r {
            Ok((v, p)) => sp_seq_prog(cs@, i as int) == Ok::<(SeqProgModel, int), int>((
                seq_prog_view(v),
                p as int,
            )) && p <= cs@.len() && crate::routing::seq_prog_wf(v),
            Err(e) => sp_seq_prog(cs@, i as int) == Err::<(SeqProgModel, int), int>(e as int)
                && e <= cs@.len(),
        },
{
    proof {
        reveal(sp_seq_prog);
    }
    let j = p_skip_ws(cs, i);
    if j < cs.len() && cs[j] == '[' {
        let (t, p1) = match p_terminal(cs, j + 1) {
            Ok(v) => v,
            Err(e) => {
                return Err(e);
            },
        };
        let p1c = if p1 > j + 1 {
            p1
        } else {
            if j + 1 >= cs.len() {
                return Err(j);
            }
            j + 2
        };
        if p1c > cs.len() {
            return Err(j);
        }
        match p_terminals_tail(cs, p1c) {
            Ok((rest, p2)) => {
                let ghost rest_view = rest@;
                let mut v = rest;
                v.insert(0, t);
                proof {
                    assert(v@ =~= seq![t] + rest_view);
                }
                Ok((SequenceRoutingProg::Sequence(v), p2))
            },
            Err(e) => Err(e),
        }
    } else {
        match p_terminal(cs, j) {
            Ok((t, p)) => Ok((SequenceRoutingProg::Prog(t), p)),
            Err(e) => Err(e),
        }
    }
}

fn p_cmp_op(cs: &Vec<char>, i: usize) -> (r: Result<(ComparisonOperator, usize), usize>)
    requires
        i <= cs@.len(),
    ensures
        match r {
            Ok((op, p)) => sp_cmp_op(cs@, i as int) == Ok::<(ComparisonOperator, int), int>((
                op,
                p as int,
            )) && p <= cs@.len(),
            Err(e) => sp_cmp_op(cs@, i as int) == Err::<(ComparisonOperator, int), int>(e as int)
                && e <= cs@.len(),
        },
{
    let j = p_skip_ws(cs, i);
    if lit_here(cs, j, "<=") {
        proof {
            reveal_strlit("<=");
        }
        Ok((ComparisonOperator::LessThanOrEqual, j + 2))
    } else if lit_here(cs, j, ">=") {
        proof {
            reveal_strlit(">=");
        }
        Ok((ComparisonOperator::GreaterThanOrEqual, j + 2))
    } else if lit_here(cs, j, "==") {
        proof {
            reveal_strlit("==");
        }
        Ok((ComparisonOperator::Equal, j + 2))
    } else if lit_here(cs, j, "!=") {
        proof {
            reveal_strlit("!=");
        }
        Ok((ComparisonOperator::NotEqual, j + 2))
    } else if j < cs.len() && cs[j] == '<' {
        Ok((ComparisonOperator::LessThan, j + 1))
    } else if j < cs.len() && cs[j] == '>' {
        Ok((ComparisonOperator::GreaterThan, j + 1))
    } else {
        Err(j)
    }
}

#[verifier::rlimit(60)]
fn p_comparison(cs: &Vec<char>, i: usize) -> (r: Result<(Condition, usize), usize>)
    requires
        i <= cs@.len(),
    ensures
        match r {
            Ok((c, p)) => sp_comparison(cs@, i as int) == Ok::<(Condition, int), int>((
                c,
                p as int,
            )) && p <= cs@.len(),
            Err(e) => sp_comparison(cs@, i as int) == Err::<(Condition, int), int>(e as int) && e
                <= cs@.len(),
        },
{
    proof {
        reveal(sp_comparison);
    }
    let j = p_skip_ws(cs, i);
    if lit_here(cs, j, "INPUT") {
        proof {
            proof_strlen_input();
        }
        let (op, p1) = match p_cmp_op(cs, j + 5) {
            Ok(v) => v,
            Err(e) => {
                return Err(e);
            },
        };
        let (n, p2) = match p_num(cs, p1) {
            Ok(v) => v,
            Err(e) => {
                return Err(e);
            },
        };
        Ok((Condition::ComparisonPortVal(n, op), p2))
    } else {
        let (n, p1) = match p_num(cs, j) {
            Ok(v) => v,
            Err(e) => {
                return Err(e);
            },
        };
        let (op, p2) = match p_cmp_op(cs, p1) {
            Ok(v) => v,
            Err(e) => {
                return Err(e);
            },
        };
        match p_lit(cs, p2, "INPUT") {
            Ok(p3) => Ok((Condition::ComparisonValPort(n, op), p3)),
            Err(e) => Err(e),
        }
    }
}

#[verifier::rlimit(60)]
fn p_cond(cs: &Vec<char>, i: usize) -> (r: Result<(Condition, usize), usize>)
    requires
        i <= cs@.len(),
    ensures
        match r {
            Ok((c, p)) => sp_cond(cs@, i as int) == Ok::<(Condition, int), int>((c, p as int))
                && p <= cs@.len(),
            Err(e) => sp_cond(cs@, i as int) == Err::<(Condition, int), int>(e as int) && e
                <= cs@.len(),
        },
    decreases cs@.len() - i,
{
    proof {
        reveal(sp_cond);
        reveal(sp_cond_binary);
    }
    let j = p_skip_ws(cs, i);
    if j < cs.len() && cs[j] == '!' {
        let p0 = match p_lit(cs, j + 1, "(") {
            Ok(p) => p,
            Err(e) => {
                return Err(e);
            },
        };
        let p0c = if p0 > j + 1 {
            p0
        } else {
            if j + 1 >= cs.len() {
                return Err(j);
            }
            j + 2
        };
        if p0c > cs.len() || p0c <= i {
            return Err(j);
        }
        let (c, p1) = match p_cond(cs, p0c) {
            Ok(v) => v,
            Err(e) => {
                return Err(e);
            },
        };
        match p_lit(cs, p1, ")") {
            Ok(p2) => Ok((Condition::Not(Box::new(c)), p2)),
            Err(e) => Err(e),
        }
    } else if j < cs.len() && cs[j] == '(' {
        proof {
            assert(sp_cond(cs@, i as int) == sp_cond_binary(cs@, i as int, j as int));
        }
        if j >= cs.len() || j + 1 <= i {
            return Err(j);
        }
        let (c1, p1) = match p_cond(cs, j + 1) {
            Ok(v) => v,
            Err(e) => {
                return Err(e);
            },
        };
        let k = p_skip_ws(cs, p1);
        let and_here = lit_here(cs, k, "&&");
        let or_here = lit_here(cs, k, "||");
        proof {
            reveal_strlit("&&");
            reveal_strlit("||");
        }
        if !and_here && !or_here {
            return Err(k);
        }
        if cs.len() < 2 || k > cs.len() - 2 || k + 2 <= i {
            return Err(k);
        }
        let (c2, p2) = match p_cond(cs, k + 2) {
            Ok(v) => v,
            Err(e) => {
                return Err(e);
            },
        };
        match p_lit(cs, p2, ")") {
            Ok(p3) => {
                if and_here {
                    Ok((Condition::And(Box::new(c1), Box::new(c2)), p3))
                } else {
                    Ok((Condition::Or(Box::new(c1), Box::new(c2)), p3))
                }
            },
            Err(e) => Err(e),
        }
    } else {
        p_comparison(cs, i)
    }
}

#[verifier::rlimit(60)]
fn p_switch_tail(cs: &Vec<char>, i: usize) -> (r: Result<
    (Vec<(Condition, SequenceRoutingProg)>, SequenceRoutingProg, usize),
    usize,
>)
    requires
        i <= cs@.len(),
    ensures
        match r {
            Ok((cases, dflt, p)) => sp_switch_tail(cs@, i as int) == Ok::<
                (Seq<(Condition, SeqProgModel)>, SeqProgModel, int),
                int,
            >(
                (
                    cases@.map_values(
                        |cp: (Condition, SequenceRoutingProg)| (cp.0, seq_prog_view(cp.1)),
                    ),
                    seq_prog_view(dflt),
                    p as int,
                ),
            ) && p <= cs@.len() && crate::routing::seq_prog_wf(dflt) && (forall|k: int|
                0 <= k < cases@.len() ==> crate::routing::seq_prog_wf(
                    (#[trigger] cases@[k]).1,
                )),
            Err(e) => sp_switch_tail(cs@, i as int) == Err::<
                (Seq<(Condition, SeqProgModel)>, SeqProgModel, int),
                int,
            >(e as int) && e <= cs@.len(),
        },
    decreases cs@.len() - i,
{
    proof {
        reveal(sp_switch_tail);
    }
    match p_lit(cs, i, "->") {
        Ok(p0) => {
            let (dflt, p1) = match p_seq_prog(cs, p0) {
                Ok(v) => v,
                Err(e) => {
                    return Err(e);
                },
            };
            let v: Vec<(Condition, SequenceRoutingProg)> = Vec::new();
            proof {
                assert(v@.map_values(
                    |cp: (Condition, SequenceRoutingProg)| (cp.0, seq_prog_view(cp.1)),
                ) =~= Seq::<(Condition, SeqProgModel)>::empty());
            }
            Ok((v, dflt, p1))
        },
        Err(_) => {
            let (c, p1) = match p_cond(cs, i) {
                Ok(v) => v,
                Err(e) => {
                    return Err(e);
                },
            };
            let p2 = match p_lit(cs, p1, "->") {
                Ok(p) => p,
                Err(e) => {
                    return Err(e);
                },
            };
            let (body, p3) = match p_seq_prog(cs, p2) {
                Ok(v) => v,
                Err(e) => {
                    return Err(e);
                },
            };
            let p4 = match p_lit(cs, p3, ",") {
                Ok(p) => p,
                Err(e) => {
                    return Err(e);
                },
            };
            let p4c = if p4 > i {
                p4
            } else {
                if i >= cs.len() {
                    return Err(i);
                }
                i + 1
            };
            if p4c > cs.len() {
                return Err(i);
            }
            match p_switch_tail(cs, p4c) {
                Ok((rest, dflt, p5)) => {
                    let ghost rest_view = rest@;
                    let mut v = rest;
                    v.insert(0, (c, body));
                    proof {
                        let f = |cp: (Condition, SequenceRoutingProg)|
                            (cp.0, seq_prog_view(cp.1));
                        assert(v@.map_values(f) =~= seq![(c, seq_prog_view(body))]
                            + rest_view.map_values(f));
                    }
                    Ok((v, dflt, p5))
                },
                Err(e) => Err(e),
            }
        },
    }
}

fn p_top_prog(cs: &Vec<char>, i: usize) -> (r: Result<(TopLevelRoutingProgram, usize), usize>)
    requires
        i <= cs@.len(),
    ensures
        match r {
            Ok((v, p)) => sp_top_prog(cs@, i as int) == Ok::<(TopProgModel, int), int>((
                top_prog_view(v),
                p as int,
            )) && p <= cs@.len() && crate::routing::top_prog_wf(v),
            Err(e) => sp_top_prog(cs@, i as int) == Err::<(TopProgModel, int), int>(e as int)
                && e <= cs@.len(),
        },
{
    proof {
        reveal(sp_top_prog);
    }
    let j = p_skip_ws(cs, i);
    if lit_here(cs, j, "switch") {
        proof {
            reveal_strlit("switch");
        }
        let p0 = match p_lit(cs, j + 6, "{") {
            Ok(p) => p,
            Err(e) => {
                return Err(e);
            },
        };
        let p0c = if p0 > i {
            p0
        } else {
            if i >= cs.len() {
                return Err(j);
            }
            i + 1
        };
        if p0c > cs.len() {
            return Err(j);
        }
        let (cases, dflt, p1) = match p_switch_tail(cs, p0c) {
            Ok(v) => v,
            Err(e) => {
                return Err(e);
            },
        };
        match p_lit(cs, p1, "}") {
            Ok(p2) => {
                let prog = TopLevelRoutingProgram::Switch(cases, Box::new(dflt));
                proof {
                    assert(top_prog_view(prog) =~~= TopProgModel::Switch(
                        cases@.map_values(
                            |cp: (Condition, SequenceRoutingProg)| (cp.0, seq_prog_view(cp.1)),
                        ),
                        seq_prog_view(dflt),
                    ));
                }
                Ok((prog, p2))
            },
            Err(e) => Err(e),
        }
    } else {
        match p_seq_prog(cs, i) {
            Ok((s, p)) => Ok((TopLevelRoutingProgram::Prog(s), p)),
            Err(e) => Err(e),
        }
    }
}

#[verifier::rlimit(60)]
fn p_bank(cs: &Vec<char>, i: usize) -> (r: Result<(MemoryBank, usize), usize>)
    requires
        i <= cs@.len(),
    ensures
        match r {
            Ok((b, p)) => sp_bank(cs@, i as int) == Ok::<(BankModel, int), int>((
                bank_view(b),
                p as int,
            )) && p <= cs@.len() && crate::component::bank_wf(b)
                && crate::pretty::bank_pp_wf(b),
            Err(e) => sp_bank(cs@, i as int) == Err::<(BankModel, int), int>(e as int) && e
                <= cs@.len(),
        },
{
    proof {
        reveal(sp_bank);
    }
    let p0 = match p_lit(cs, i, "bank") {
        Ok(p) => p,
        Err(e) => {
            return Err(e);
        },
    };
    let p1 = match p_lit(cs, p0, "{") {
        Ok(p) => p,
        Err(e) => {
            return Err(e);
        },
    };
    let p2 = match p_lit(cs, p1, "layout") {
        Ok(p) => p,
        Err(e) => {
            return Err(e);
        },
    };
    let p3 = match p_lit(cs, p2, ":") {
        Ok(p) => p,
        Err(e) => {
            return Err(e);
        },
    };
    let p3c = if p3 > i {
        p3
    } else {
        if i >= cs.len() {
            return Err(p3);
        }
        i + 1
    };
    if p3c > cs.len() {
        return Err(p3);
    }
    let (ms, p4) = match p_layout(cs, p3c) {
        Ok(v) => v,
        Err(e) => {
            return Err(e);
        },
    };
    let p5 = match p_lit(cs, p4, ",") {
        Ok(q) => q,
        Err(_) => p4,
    };
    let p5c = if p5 > i && p5 <= cs.len() {
        p5
    } else {
        if i >= cs.len() {
            return Err(p4);
        }
        i + 1
    };
    if p5c > cs.len() {
        return Err(p4);
    }
    let q0 = match p_lit(cs, p5c, "translation") {
        Ok(p) => p,
        Err(e) => {
            return Err(e);
        },
    };
    let q1 = match p_lit(cs, q0, ":") {
        Ok(p) => p,
        Err(e) => {
            return Err(e);
        },
    };
    let q1c = if q1 > p5c && q1 <= cs.len() {
        q1
    } else {
        p5c
    };
    let (tp, q2) = match p_top_prog(cs, q1c) {
        Ok(v) => v,
        Err(e) => {
            return Err(e);
        },
    };
    match p_lit(cs, q2, "}") {
        Ok(q3) => {
            let bank = MemoryBank::new(tp, TopLevelMemoryLayout::new(ms));
            proof {
                assert(bank_view(bank) =~~= BankModel {
                    routing: top_prog_view(tp),
                    layout: bank.memory_layout.mems@,
                });
            }
            Ok((bank, q3))
        },
        Err(e) => Err(e),
    }
}

#[verifier::rlimit(60)]
fn p_banks_tail(cs: &Vec<char>, i: usize) -> (r: Result<(Vec<MemoryBank>, usize), usize>)
    requires
        i <= cs@.len(),
    ensures
        match r {
            Ok((v, p)) => sp_banks_tail(cs@, i as int) == Ok::<(Seq<BankModel>, int), int>((
                v@.map_values(|b: MemoryBank| bank_view(b)),
                p as int,
            )) && p <= cs@.len() && (forall|k: int|
                0 <= k < v@.len() ==> crate::component::bank_wf(#[trigger] v@[k])
                    && crate::pretty::bank_pp_wf(v@[k])),
            Err(e) => sp_banks_tail(cs@, i as int) == Err::<(Seq<BankModel>, int), int>(e as int)
                && e <= cs@.len(),
        },
    decreases cs@.len() - i,
{
    proof {
        reveal(sp_banks_tail);
    }
    match p_lit(cs, i, "}") {
        Ok(p) => {
            let v: Vec<MemoryBank> = Vec::new();
            proof {
                assert(v@.map_values(|b: MemoryBank| bank_view(b)) =~= Seq::<
                    BankModel,
                >::empty());
            }
            Ok((v, p))
        },
        Err(_) => {
            let (b, p1) = match p_bank(cs, i) {
                Ok(v) => v,
                Err(e) => {
                    return Err(e);
                },
            };
            let p1c = if p1 > i {
                p1
            } else {
                if i >= cs.len() {
                    return Err(i);
                }
                i + 1
            };
            if p1c > cs.len() {
                return Err(i);
            }
            match p_banks_tail(cs, p1c) {
                Ok((rest, p2)) => {
                    let ghost rest_view = rest@;
                    let mut v = rest;
                    v.insert(0, b);
                    proof {
                        let f = |bb: MemoryBank| bank_view(bb);
                        assert(v@.map_values(f) =~= seq![bank_view(b)] + rest_view.map_values(
                            f,
                        ));
                    }
                    Ok((v, p2))
                },
                Err(e) => Err(e),
            }
        },
    }
}

/// Entry points of the description reader, shared by both dialects.
pub struct AstParser;

impl AstParser {
    /// Reads an author-dialect component description in full.
    pub fn parse_component(input: &str) -> (r: Result<Component, ParseError>)
        ensures
            match r {
                Ok(c) => sp_component(input@) == Ok::<ComponentModel, int>(component_view(c))
                    && crate::component::component_wf(c) && (forall|k: int|
                    0 <= k < c.banks@.len() ==> crate::pretty::bank_pp_wf(
                        #[trigger] c.banks@[k],
                    )) && c.banks@.len() >= 1 && c.port_count as int == c.banks@.len(),
                Err(e) => sp_component(input@) matches Err(pos) && e.position == pos,
            },
    {
        proof {
            reveal(sp_component);
        }
        let cs = str_chars(input);
        let p0 = match p_lit(&cs, 0, "memory") {
            Ok(p) => p,
            Err(e) => {
                return Err(ParseError { position: e });
            },
        };
        let p1 = match p_lit(&cs, p0, "<") {
            Ok(p) => p,
            Err(e) => {
                return Err(ParseError { position: e });
            },
        };
        let (width, p2) = match p_num(&cs, p1) {
            Ok(v) => v,
            Err(e) => {
                return Err(ParseError { position: e });
            },
        };
        let p3 = match p_lit(&cs, p2, ",") {
            Ok(p) => p,
            Err(e) => {
                return Err(ParseError { position: e });
            },
        };
        let (size, p4) = match p_num(&cs, p3) {
            Ok(v) => v,
            Err(e) => {
                return Err(ParseError { position: e });
            },
        };
        let p5 = match p_lit(&cs, p4, ">") {
            Ok(p) => p,
            Err(e) => {
                return Err(ParseError { position: e });
            },
        };
        let p6 = match p_lit(&cs, p5, "{") {
            Ok(p) => p,
            Err(e) => {
                return Err(ParseError { position: e });
            },
        };
        let p6c = if p6 > 0 && p6 <= cs.len() {
            p6
        } else {
            0
        };
        let (banks, p7) = match p_banks_tail(&cs, p6c) {
            Ok(v) => v,
            Err(e) => {
                return Err(ParseError { position: e });
            },
        };
        if banks.len() == 0 {
            return Err(ParseError { position: p6c });
        }
        let rest = p_skip_ws(&cs, p7);
        if rest != cs.len() {
            return Err(ParseError { position: rest });
        }
        if size > usize::MAX as u64 {
            return Err(ParseError { position: 0 });
        }
        let c = Component::from_parse(size, width, banks);
        proof {
            assert(component_view(c) =~~= ComponentModel {
                width,
                size,
                banks: c.banks@.map_values(|b: MemoryBank| bank_view(b)),
            });
        }
        Ok(c)
    }

    /// Reads a layout standing alone, as the lifting of a solver partition
    /// value uses it.
    pub fn parse_partition(input: &str) -> (r: Result<TopLevelMemoryLayout, ParseError>)
        ensures
            match r {
                Ok(l) => sp_partition_doc(input@) == Ok::<Seq<MemoryLayout>, int>(l.mems@)
                    && l.mems@.len() >= 1 && crate::layout::tlml_ranges_wf(l.mems@),
                Err(e) => sp_partition_doc(input@) matches Err(pos) && e.position == pos,
            },
    {
        proof {
            reveal(sp_partition_doc);
        }
        let cs = str_chars(input);
        let (ms, p) = match p_layout(&cs, 0) {
            Ok(v) => v,
            Err(e) => {
                return Err(ParseError { position: e });
            },
        };
        let rest = p_skip_ws(&cs, p);
        if rest != cs.len() {
            return Err(ParseError { position: rest });
        }
        Ok(TopLevelMemoryLayout::new(ms))
    }

    /// Reads a terminal transform standing alone, as the lifting of a solver
    /// routing value uses it, and wraps it as an unconditional program.
    pub fn parse_z3_address_translation(input: &str) -> (r: Result<
        TopLevelRoutingProgram,
        ParseError,
    >)
        ensures
            match r {
                Ok(prog) => sp_translation_doc(input@) matches Ok(t) && prog
                    == TopLevelRoutingProgram::Prog(SequenceRoutingProg::Prog(t)),
                Err(e) => sp_translation_doc(input@) matches Err(pos) && e.position == pos,
            },
    {
        proof {
            reveal(sp_translation_doc);
        }
        let cs = str_chars(input);
        let (t, p) = match p_terminal(&cs, 0) {
            Ok(v) => v,
            Err(e) => {
                return Err(ParseError { position: e });
            },
        };
        let rest = p_skip_ws(&cs, p);
        if rest != cs.len() {
            return Err(ParseError { position: rest });
        }
        Ok(TopLevelRoutingProgram::Prog(SequenceRoutingProg::Prog(t)))
    }
}

/// Reads a top-level layout standing alone, as the lifting of a solver
/// partition uses it: the layout followed only by whitespace.
#[verifier::opaque]
pub open spec fn sp_partition_doc(s: Seq<char>) -> Result<Seq<MemoryLayout>, int> {
    match sp_layout(s, 0) {
        Err(e) => Err(e),
        Ok((ms, p)) => if skip_ws(s, p) == s.len() {
            Ok(ms)
        } else {
            Err(skip_ws(s, p))
        },
    }
}

/// Reads a terminal transform standing alone, as the lifting of a solver
/// routing value uses it.
#[verifier::opaque]
pub open spec fn sp_translation_doc(s: Seq<char>) -> Result<TerminalRoutingProgram, int> {
    match sp_terminal(s, 0) {
        Err(e) => Err(e),
        Ok((t, p)) => if skip_ws(s, p) == s.len() {
            Ok(t)
        } else {
            Err(skip_ws(s, p))
        },
    }
}

} // verus!
