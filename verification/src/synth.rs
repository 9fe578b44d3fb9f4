//! The constraint problem behind synthesis, and the lifting of a solver's
//! answer back into a component.
//!
//! Synthesis chooses, for every port, a terminal routing program and one
//! partition range, subject to the constraints stated here, minimizing the
//! product of the per-bank capacities.  This module builds the problem as
//! plain data, gives the constraints their meaning over candidate
//! assignments, and lifts a solver's printed answer — one solver-echo
//! partition text and one translation text per port — into a `Component`
//! that is then held against the trace before it is returned.

use crate::component::{component_wf, spec_validates, Component, MemoryBank};
use crate::dsl::AstParser;
use crate::layout::TopLevelMemoryLayout;
use crate::routing::TerminalRoutingProgram;
use crate::trace::{lines_view, Trace};
use crate::ParseError;
use vstd::arithmetic::power2::pow2;
use vstd::prelude::*;

verus! {

/// The constraint problem for one trace: every present request, in input
/// order, must be served by the bank of its port; every bank must be a valid
/// partition of the logical address space.  The objective is to minimize the
/// product over the ports of `(finish - start) / stride + 1`.
#[derive(Debug, Clone, PartialEq, Eq)]
pub struct SmtProblem {
    /// Number of entries of the logical memory.
    pub size: u64,
    /// Bitwidth of the stored elements.
    pub width: u64,
    /// Width of the bit-vector operands of the routing programs.
    pub address_bits: u32,
    /// One routing variable and one bank variable per port.
    pub port_count: usize,
    /// The present requests, as `(port, address)`, in trace order.
    pub requests: Vec<(usize, u64)>,
}

/// The present requests of the lines, in order: line by line, slot by slot.
pub open spec fn spec_requests(lines: Seq<Seq<Option<usize>>>) -> Seq<(usize, u64)>
    decreases lines.len(),
{
    if lines.len() == 0 {
        Seq::empty()
    } else {
        spec_line_requests(lines.first(), 0) + spec_requests(lines.drop_first())
    }
}

/// The present requests of one line from slot `j` on.
pub open spec fn spec_line_requests(l: Seq<Option<usize>>, j: int) -> Seq<(usize, u64)>
    decreases l.len() - j,
{
    if j < 0 || j >= l.len() {
        Seq::empty()
    } else {
        match l[j] {
            Some(a) => seq![(j as usize, a as u64)] + spec_line_requests(l, j + 1),
            None => spec_line_requests(l, j + 1),
        }
    }
}

/// A candidate choice for one port: a terminal routing program and the
/// bounds of one partition range, as the solver's integers.
pub struct PortChoice {
    pub routing: TerminalRoutingProgram,
    pub start: int,
    pub finish: int,
    pub stride: int,
}

/// Partition validity, as asserted once per port: the range lies within the
/// logical memory and steps forward.
pub open spec fn partition_valid_sem(c: PortChoice, size: u64) -> bool {
    c.start >= 0 && c.finish > c.start && c.finish <= size && c.stride > 0
}

/// The routed index of address `a` under a terminal program, in the
/// bit-vector arithmetic of the encoding: addition and subtraction wrap
/// modulo `2^bits`, and a right shift is unsigned.
pub open spec fn encode_out(t: TerminalRoutingProgram, a: u64, bits: nat) -> int {
    match t {
        TerminalRoutingProgram::Noop => (a as int) % (pow2(bits) as int),
        TerminalRoutingProgram::RShift(v) => ((a as int) % (pow2(bits) as int)) / (pow2(
            v as nat,
        ) as int),
        TerminalRoutingProgram::Add(v) => ((a + v) as int) % (pow2(bits) as int),
        TerminalRoutingProgram::SubPortVal(v) => ((a - v) % (pow2(bits) as int) + pow2(bits)) % (
        pow2(bits) as int),
        TerminalRoutingProgram::SubValPort(v) => ((v - a) % (pow2(bits) as int) + pow2(bits)) % (
        pow2(bits) as int),
        TerminalRoutingProgram::Constant(v) => (v as int) % (pow2(bits) as int),
    }
}

/// One request constraint: routing the address through the port's program
/// yields an in-range physical index whose address in the range is the
/// request itself, strictly below the range's end and within the memory.
pub open spec fn request_served_sem(c: PortChoice, a: u64, size: u64, bits: nat) -> bool {
    let out = encode_out(c.routing, a, bits);
    let actual = c.start + out * c.stride;
    actual < c.finish && 0 <= actual < size && actual == a
}

/// The whole problem holds of an assignment of one choice per port.
pub open spec fn sat_problem(p: SmtProblem, asn: Seq<PortChoice>) -> bool {
    asn.len() == p.port_count && (forall|k: int|
        0 <= k < asn.len() ==> partition_valid_sem(#[trigger] asn[k], p.size)) && (forall|r: int|
        0 <= r < p.requests@.len() ==> (#[trigger] p.requests@[r]).0 < p.port_count
            && request_served_sem(
            asn[p.requests@[r].0 as int],
            p.requests@[r].1,
            p.size,
            p.address_bits as nat,
        ))
}

/// The storage cost the objective minimizes: the product of the per-bank
/// capacities.
pub open spec fn assignment_cost(asn: Seq<PortChoice>) -> int
    decreases asn.len(),
{
    if asn.len() == 0 {
        1
    } else {
        ((asn.first().finish - asn.first().start) / asn.first().stride + 1) * assignment_cost(
            asn.drop_first(),
        )
    }
}

proof fn lemma_line_requests_step(l: Seq<Option<usize>>, j: int)
    requires
        0 <= j < l.len(),
    ensures
        spec_line_requests(l, j) == match l[j] {
            Some(a) => seq![(j as usize, a as u64)] + spec_line_requests(l, j + 1),
            None => spec_line_requests(l, j + 1),
        },
{
}

impl SmtProblem {
    /// Builds the constraint problem for a trace.
    pub fn encode_problem(trace: &Trace) -> (r: SmtProblem)
        ensures
            r.size == trace.size as u64,
            r.width == trace.bitwidth as u64,
            r.address_bits >= 1,
            pow2(r.address_bits as nat) >= trace.size,
            r.port_count as int == if lines_view(trace.trace).len() == 0 {
                0int
            } else {
                lines_view(trace.trace)[0].len() as int
            },
            r.requests@ == spec_requests(lines_view(trace.trace)),
    {
        let ghost lines = lines_view(trace.trace);
        let mut requests: Vec<(usize, u64)> = Vec::new();
        let all_lines = trace.iter();
        let mut i: usize = 0;
        proof {
            assert(lines.skip(0) =~= lines);
            assert(requests@ =~= Seq::<(usize, u64)>::empty());
        }
        while i < all_lines.len()
            invariant
                lines == lines_view(trace.trace),
                all_lines == &trace.trace,
                i <= lines.len(),
                requests@ + spec_requests(lines.skip(i as int)) == spec_requests(lines),
            decreases lines.len() - i,
        {
            proof {
                assert(lines.skip(i as int).first() == lines[i as int]);
                assert(lines.skip(i as int).drop_first() =~= lines.skip(i as int + 1));
            }
            let line = &all_lines[i];
            proof {
                assert(line@ == lines[i as int]);
            }
            let mut j: usize = 0;
            while j < line.len()
                invariant
                    line@ == lines_view(trace.trace)[i as int],
                    i < lines_view(trace.trace).len(),
                    lines == lines_view(trace.trace),
                    j <= line@.len(),
                    requests@ + spec_line_requests(line@, j as int) + spec_requests(
                        lines.skip(i as int + 1),
                    ) == spec_requests(lines),
                decreases line@.len() - j,
            {
                match line[j] {
                    Some(a) => {
                        requests.push((j, a as u64));
                        proof {
                            lemma_line_requests_step(line@, j as int);
                            assert(requests@ + spec_line_requests(line@, j as int + 1) =~= (
                            requests@.drop_last() + spec_line_requests(line@, j as int)));
                        }
                    },
                    None => {},
                }
                j = j + 1;
            }
            proof {
                assert(spec_line_requests(line@, line@.len() as int) =~= Seq::<
                    (usize, u64),
                >::empty());
                assert(requests@ + spec_requests(lines.skip(i as int + 1)) =~= requests@
                    + spec_line_requests(line@, line@.len() as int) + spec_requests(
                    lines.skip(i as int + 1),
                ));
            }
            i = i + 1;
        }
        proof {
            assert(lines.skip(i as int) =~= Seq::<Seq<Option<usize>>>::empty());
            assert(requests@ + spec_requests(lines.skip(i as int)) =~= requests@);
        }
        SmtProblem {
            size: trace.size() as u64,
            width: trace.bitwidth() as u64,
            address_bits: trace.bits_required(),
            port_count: trace.num_ports(),
            requests,
        }
    }
}

/// Why lifting a solver answer failed.
#[derive(Debug, Clone, PartialEq, Eq)]
pub enum LiftError {
    /// A partition or translation text did not read back.
    Parse(ParseError),
    /// A lifted partition reaches past the logical memory.
    OutOfBounds,
    /// The lifted banks do not serve every request of the trace.
    Unserved,
}

/// Both texts of a pair read back: the partition and the translation.
pub open spec fn pair_parses(p: (String, String)) -> bool {
    crate::dsl::sp_partition_doc(p.0@) is Ok && crate::dsl::sp_translation_doc(p.1@) is Ok
}

/// The position a failing pair reports: the partition text is read first.
pub open spec fn pair_fail_pos(p: (String, String)) -> int {
    if crate::dsl::sp_partition_doc(p.0@) is Err {
        crate::dsl::sp_partition_doc(p.0@)->Err_0
    } else {
        crate::dsl::sp_translation_doc(p.1@)->Err_0
    }
}

/// The ranges a pair's partition text denotes.
pub open spec fn pair_partition(p: (String, String)) -> Seq<crate::layout::MemoryLayout> {
    crate::dsl::sp_partition_doc(p.0@)->Ok_0
}

/// The routing program a pair's translation text denotes: the terminal
/// transform, wrapped as an unconditional program.
pub open spec fn pair_routing(p: (String, String)) -> crate::routing::TopLevelRoutingProgram {
    crate::routing::TopLevelRoutingProgram::Prog(
        crate::routing::SequenceRoutingProg::Prog(crate::dsl::sp_translation_doc(p.1@)->Ok_0),
    )
}

/// Every range of the pair's partition ends within the logical memory, as
/// the partition-validity constraints require.
pub open spec fn pair_within(p: (String, String), size: usize) -> bool {
    forall|k: int|
        0 <= k < pair_partition(p).len() ==> (#[trigger] pair_partition(p)[k])->finish <= size
}

/// The bank a pair denotes serves address `index`.
pub open spec fn pair_serves(p: (String, String), index: usize) -> bool {
    crate::layout::tlml_at(
        pair_partition(p),
        crate::routing::spec_top_eval(pair_routing(p), index as u64) as usize as int,
    ) == Some(index as int)
}

/// Every present request of the line is served by the bank its port's pair
/// denotes.
pub open spec fn texts_line_served(texts: Seq<(String, String)>, l: Seq<Option<usize>>) -> bool {
    forall|j: int|
        0 <= j < l.len() && (#[trigger] l[j]) is Some ==> j < texts.len() && pair_serves(
            texts[j],
            l[j]->Some_0,
        )
}

/// Every present request of every line is served by the banks the texts
/// denote.
pub open spec fn texts_validate(texts: Seq<(String, String)>, lines: Seq<Seq<Option<usize>>>) -> bool {
    forall|i: int| 0 <= i < lines.len() ==> texts_line_served(texts, #[trigger] lines[i])
}

/// Banks whose fields equal the values their pairs denote validate a trace
/// exactly when the texts do.
proof fn lemma_texts_validate_iff(
    banks: Seq<MemoryBank>,
    texts: Seq<(String, String)>,
    lines: Seq<Seq<Option<usize>>>,
)
    requires
        banks.len() == texts.len(),
        forall|k: int|
            0 <= k < texts.len() ==> (#[trigger] banks[k]).memory_layout.mems@ == pair_partition(
                texts[k],
            ) && banks[k].routing == pair_routing(texts[k]),
    ensures
        spec_validates(banks, lines) == texts_validate(texts, lines),
{
    assert forall|j: int, v: usize|
        #![trigger crate::component::spec_can_read(banks[j], v)]
        0 <= j < texts.len() implies crate::component::spec_can_read(banks[j], v) == pair_serves(
        texts[j],
        v,
    ) by {}
    if spec_validates(banks, lines) {
        assert forall|i: int| 0 <= i < lines.len() implies texts_line_served(
            texts,
            #[trigger] lines[i],
        ) by {
            assert(crate::component::spec_line_served(banks, lines[i]));
        }
    }
    if texts_validate(texts, lines) {
        assert forall|i: int| 0 <= i < lines.len() implies crate::component::spec_line_served(
            banks,
            #[trigger] lines[i],
        ) by {
            assert(texts_line_served(texts, lines[i]));
        }
    }
}

/// Lifts a solver answer into a component and holds it against the trace.
///
/// Each pair carries the solver-echo text of one port's partition and the
/// text of its address translation, in port order.  The result is `Ok`
/// exactly when every text reads back, every lifted range ends within the
/// logical memory, and the lifted banks serve every present request; the
/// banks of the result are exactly the values the texts denote.
pub fn lift_solution(trace: &Trace, bank_texts: &Vec<(String, String)>) -> (r: Result<
    Component,
    LiftError,
>)
    ensures
        ({
            let lines = lines_view(trace.trace);
            let texts = bank_texts@;
            match r {
                Ok(c) => {
                    &&& forall|k: int| 0 <= k < texts.len() ==> pair_parses(#[trigger] texts[k])
                    &&& forall|k: int|
                        0 <= k < texts.len() ==> pair_within(#[trigger] texts[k], trace.size)
                    &&& texts_validate(texts, lines)
                    &&& c.banks@.len() == texts.len()
                    &&& forall|k: int|
                        0 <= k < texts.len() ==> (#[trigger] c.banks@[k]).memory_layout.mems@
                            == pair_partition(texts[k]) && c.banks@[k].routing == pair_routing(
                            texts[k],
                        )
                    &&& spec_validates(c.banks@, lines)
                    &&& component_wf(c)
                    &&& forall|k: int|
                        0 <= k < c.banks@.len() ==> crate::pretty::bank_pp_wf(
                            #[trigger] c.banks@[k],
                        )
                    &&& c.size == trace.size as u64
                    &&& c.width == trace.bitwidth as u64
                    &&& c.port_count as int == if lines.len() == 0 {
                        0int
                    } else {
                        lines[0].len() as int
                    }
                    &&& c.address_bit_width >= 1
                    &&& pow2(c.address_bit_width as nat) >= trace.size
                    &&& c.address_bit_width > 1 ==> pow2(
                        (c.address_bit_width - 1) as nat,
                    ) < trace.size
                },
                Err(LiftError::Parse(e)) => exists|k: int|
                    0 <= k < texts.len() && !pair_parses(#[trigger] texts[k]) && (forall|j: int|
                        0 <= j < k ==> pair_parses(#[trigger] texts[j])) && e.position as int
                        == pair_fail_pos(texts[k]),
                Err(LiftError::OutOfBounds) => (forall|k: int|
                    0 <= k < texts.len() ==> pair_parses(#[trigger] texts[k])) && (exists|k: int|
                    0 <= k < texts.len() && !pair_within(#[trigger] texts[k], trace.size)),
                Err(LiftError::Unserved) => (forall|k: int|
                    0 <= k < texts.len() ==> pair_parses(#[trigger] texts[k])) && (forall|k: int|
                    0 <= k < texts.len() ==> pair_within(#[trigger] texts[k], trace.size))
                    && !texts_validate(texts, lines),
            }
        }),
{
    let ghost texts = bank_texts@;
    let mut banks: Vec<MemoryBank> = Vec::new();
    let mut i: usize = 0;
    while i < bank_texts.len()
        invariant
            texts == bank_texts@,
            i <= texts.len(),
            banks@.len() == i,
            forall|k: int| 0 <= k < i ==> pair_parses(#[trigger] texts[k]),
            forall|k: int|
                0 <= k < i ==> (#[trigger] banks@[k]).memory_layout.mems@ == pair_partition(
                    texts[k],
                ) && banks@[k].routing == pair_routing(texts[k]),
            forall|k: int|
                0 <= k < i ==> crate::component::bank_wf(#[trigger] banks@[k])
                    && crate::pretty::bank_pp_wf(banks@[k]),
        decreases texts.len() - i,
    {
        let layout = match AstParser::parse_partition(bank_texts[i].0.as_str()) {
            Ok(l) => l,
            Err(e) => {
                return Err(LiftError::Parse(e));
            },
        };
        let routing = match AstParser::parse_z3_address_translation(bank_texts[i].1.as_str()) {
            Ok(p) => p,
            Err(e) => {
                return Err(LiftError::Parse(e));
            },
        };
        banks.push(MemoryBank::new(routing, layout));
        i = i + 1;
    }
    let mut k: usize = 0;
    while k < banks.len()
        invariant
            texts == bank_texts@,
            banks@.len() == texts.len(),
            k <= banks@.len(),
            forall|t: int| 0 <= t < texts.len() ==> pair_parses(#[trigger] texts[t]),
            forall|t: int|
                0 <= t < texts.len() ==> (#[trigger] banks@[t]).memory_layout.mems@
                    == pair_partition(texts[t]) && banks@[t].routing == pair_routing(texts[t]),
            forall|t: int|
                0 <= t < texts.len() ==> crate::component::bank_wf(#[trigger] banks@[t])
                    && crate::pretty::bank_pp_wf(banks@[t]),
            forall|t: int| 0 <= t < k ==> pair_within(#[trigger] texts[t], trace.size),
        decreases banks@.len() - k,
    {
        let mems = &banks[k].memory_layout.mems;
        let mut j: usize = 0;
        while j < mems.len()
            invariant
                texts == bank_texts@,
                k < banks@.len() == texts.len(),
                forall|t: int| 0 <= t < texts.len() ==> pair_parses(#[trigger] texts[t]),
                mems@ == banks@[k as int].memory_layout.mems@,
                mems@ == pair_partition(texts[k as int]),
                j <= mems@.len(),
                forall|t: int|
                    0 <= t < j ==> (#[trigger] mems@[t])->finish <= trace.size,
            decreases mems@.len() - j,
        {
            let too_far = match &mems[j] {
                crate::layout::MemoryLayout::Range { finish, .. } => *finish > trace.size(),
            };
            if too_far {
                proof {
                    assert(!pair_within(texts[k as int], trace.size));
                }
                return Err(LiftError::OutOfBounds);
            }
            j = j + 1;
        }
        k = k + 1;
    }
    let comp = Component::from_trace(banks, trace);
    proof {
        lemma_texts_validate_iff(comp.banks@, texts, lines_view(trace.trace));
    }
    if comp.vailidate(trace) {
        Ok(comp)
    } else {
        Err(LiftError::Unserved)
    }
}

} // verus!
