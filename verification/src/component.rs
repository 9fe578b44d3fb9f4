//! Banks and synthesized components, and their validation against a trace.
//!
//! A bank serves the request `a` when routing `a` and looking the result up
//! in the bank's layout yields `a` back.  A component validates a trace when
//! every present request is served by the bank of its port.

use crate::layout::{
    layout_wf,
    lemma_at_below_finish,
    tlml_at,
    tlml_ranges_wf,
    tlml_sum,
    TopLevelMemoryLayout,
};
use crate::routing::{spec_top_eval, TopLevelRoutingProgram};
use crate::trace::{bits_required, lines_view, Trace};
use vstd::arithmetic::power2::pow2;
use vstd::prelude::*;

verus! {

/// One physical bank: an address transform paired with the layout it
/// indexes into.
#[derive(Debug, Clone, PartialEq, Eq)]
pub struct MemoryBank {
    pub routing: TopLevelRoutingProgram,
    pub memory_layout: TopLevelMemoryLayout,
}

/// A bank is well formed when every range of its layout is.
pub open spec fn bank_wf(b: MemoryBank) -> bool {
    tlml_ranges_wf(b.memory_layout.mems@)
}

/// The bank serves address `index`: routing it and reading the layout at the
/// routed position yields `index` back.
pub open spec fn spec_can_read(b: MemoryBank, index: usize) -> bool {
    tlml_at(b.memory_layout.mems@, spec_top_eval(b.routing, index as u64) as usize as int)
        == Some(index as int)
}

/// Whenever the concatenated layout yields an address, the address fits in
/// a machine word.
pub proof fn lemma_tlml_at_in_range(ms: Seq<crate::layout::MemoryLayout>, i: int)
    requires
        tlml_ranges_wf(ms),
    ensures
        tlml_at(ms, i) matches Some(a) ==> 0 <= a <= usize::MAX,
    decreases ms.len(),
{
    if ms.len() > 0 && i >= 0 {
        if i < crate::layout::layout_size(ms.first()) {
            lemma_at_below_finish(ms.first(), i);
        }
        assert(tlml_ranges_wf(ms.drop_first())) by {
            assert(forall|k: int|
                0 <= k < ms.drop_first().len() ==> ms.drop_first()[k] == #[trigger] ms[k + 1]);
        }
        lemma_tlml_at_in_range(ms.drop_first(), i - crate::layout::layout_size(ms.first()));
    }
}

impl MemoryBank {
    /// Pairs a routing program with a layout.
    pub fn new(routing: TopLevelRoutingProgram, memory_layout: TopLevelMemoryLayout) -> (r: Self)
        ensures
            r.routing == routing,
            r.memory_layout == memory_layout,
    {
        Self { routing, memory_layout }
    }

    /// Number of physical slots of the bank.
    pub fn size(&self) -> (r: usize)
        requires
            tlml_ranges_wf(self.memory_layout.mems@),
            tlml_sum(self.memory_layout.mems@) <= usize::MAX,
        ensures
            r == tlml_sum(self.memory_layout.mems@),
    {
        self.memory_layout.size()
    }

    /// Whether the bank serves the address `index` in one cycle.
    pub fn can_read(&self, index: usize) -> (r: bool)
        requires
            bank_wf(*self),
        ensures
            r == spec_can_read(*self, index),
    {
        let routed_index = self.routing.eval(index as u64);
        let result = self.memory_layout.get(&(routed_index as usize));
        proof {
            lemma_tlml_at_in_range(
                self.memory_layout.mems@,
                routed_index as usize as int,
            );
        }
        match result {
            Some(x) => x == index,
            None => false,
        }
    }
}

/// A synthesized memory: one bank per port.
#[derive(Debug, Clone, PartialEq, Eq)]
pub struct Component {
    /// The number of slots in the logical memory
    pub size: u64,
    /// Bitwidth of the stored data elements
    pub width: u64,
    /// Width of the indexing ports
    pub address_bit_width: u64,
    /// Number of parallel ports in the memory
    pub port_count: u64,
    /// the list of memory banks where the index corresponds to the input port
    pub banks: Vec<MemoryBank>,
}

/// All banks of the component are well formed.
pub open spec fn component_wf(c: Component) -> bool {
    forall|i: int| 0 <= i < c.banks@.len() ==> bank_wf(#[trigger] c.banks@[i])
}

/// Every present request of the line is served by the bank of its port.
/// A request at a port with no bank is never served.
pub open spec fn spec_line_served(banks: Seq<MemoryBank>, l: Seq<Option<usize>>) -> bool {
    forall|j: int|
        0 <= j < l.len() && (#[trigger] l[j]) is Some ==> j < banks.len() && spec_can_read(
            banks[j],
            l[j]->Some_0,
        )
}

/// Every present request of every line is served by the bank of its port.
pub open spec fn spec_validates(banks: Seq<MemoryBank>, lines: Seq<Seq<Option<usize>>>) -> bool {
    forall|i: int| 0 <= i < lines.len() ==> spec_line_served(banks, #[trigger] lines[i])
}

impl Component {
    /// Assembles a component from banks and the trace they were synthesized
    /// for.
    pub fn from_trace(banks: Vec<MemoryBank>, trace: &Trace) -> (r: Self)
        ensures
            r.size == trace.size as u64,
            r.width == trace.bitwidth as u64,
            r.port_count as int == if lines_view(trace.trace).len() == 0 {
                0int
            } else {
                lines_view(trace.trace)[0].len() as int
            },
            r.banks == banks,
            r.address_bit_width >= 1,
            pow2(r.address_bit_width as nat) >= trace.size,
            r.address_bit_width > 1 ==> pow2((r.address_bit_width - 1) as nat) < trace.size,
    {
        Self {
            size: trace.size() as u64,
            width: trace.bitwidth() as u64,
            address_bit_width: trace.bits_required() as u64,
            port_count: trace.num_ports() as u64,
            banks,
        }
    }

    /// Assembles a component from a parsed description: one port per bank,
    /// address bits derived from the memory size.
    pub fn from_parse(size: u64, width: u64, banks: Vec<MemoryBank>) -> (r: Self)
        requires
            size <= usize::MAX,
            banks@.len() <= u64::MAX,
        ensures
            r.size == size,
            r.width == width,
            r.port_count as int == banks@.len(),
            r.banks == banks,
            r.address_bit_width >= 1,
            pow2(r.address_bit_width as nat) >= size,
            r.address_bit_width > 1 ==> pow2((r.address_bit_width - 1) as nat) < size,
    {
        let address_bit_width = bits_required(size as usize) as u64;
        let port_count = banks.len() as u64;
        Self { size, width, address_bit_width, port_count, banks }
    }

    /// Whether every present request of one line is served.
    #[verifier::loop_isolation(false)]
    fn line_served(&self, line: &Vec<Option<usize>>) -> (r: bool)
        requires
            component_wf(*self),
        ensures
            r == spec_line_served(self.banks@, line@),
    {
        let mut j: usize = 0;
        while j < line.len()
            invariant
                j <= line@.len(),
                forall|b: int|
                    0 <= b < j && (#[trigger] line@[b]) is Some ==> b < self.banks@.len()
                        && spec_can_read(self.banks@[b], line@[b]->Some_0),
            decreases line@.len() - j,
        {
            match line[j] {
                Some(request) => {
                    let ok = if j >= self.banks.len() {
                        false
                    } else {
                        self.banks[j].can_read(request)
                    };
                    if !ok {
                        proof {
                            assert(line@[j as int] is Some);
                            assert(!(j < self.banks@.len() && spec_can_read(
                                self.banks@[j as int],
                                line@[j as int]->Some_0,
                            )));
                            assert(!spec_line_served(self.banks@, line@));
                        }
                        return false;
                    }
                },
                None => {},
            }
            j = j + 1;
        }
        proof {
            assert forall|b: int| 0 <= b < line@.len() && (#[trigger] line@[b]) is Some
                implies b < self.banks@.len() && spec_can_read(
                self.banks@[b],
                line@[b]->Some_0,
            ) by {
                assert(0 <= b < j);
            }
        }
        true
    }

    /// Whether every present request in the trace is served by the bank of
    /// its port.
    #[verifier::loop_isolation(false)]
    pub fn vailidate(&self, trace: &Trace) -> (r: bool)
        requires
            component_wf(*self),
        ensures
            r == spec_validates(self.banks@, lines_view(trace.trace)),
    {
        let ghost lines = lines_view(trace.trace);
        let all_lines = trace.iter();
        let mut i: usize = 0;
        while i < all_lines.len()
            invariant
                i <= lines.len(),
                forall|a: int| 0 <= a < i ==> spec_line_served(self.banks@, #[trigger] lines[a]),
            decreases lines.len() - i,
        {
            let line = &all_lines[i];
            proof {
                assert(line@ == lines[i as int]);
            }
            if !self.line_served(line) {
                return false;
            }
            i = i + 1;
        }
        true
    }
}

} // verus!
