//! Rendering a component to the hardware description: one storage cell per
//! bank and a combinational datapath per port, wired from the bank's
//! terminal routing program.
//!
//! Only a bank whose routing is a single terminal other than a constant can
//! be emitted; anything else yields `EmitUnsupported`.

use crate::component::{Component, MemoryBank};
use crate::layout::{tlml_ranges_wf, tlml_sum};
use crate::pretty::{dec_str, fmt_u64, str_concat};
use crate::routing::{SequenceRoutingProg, TerminalRoutingProgram, TopLevelRoutingProgram};
use vstd::prelude::*;

verus! {

/// The bank's routing cannot be rendered as a combinational datapath.
#[derive(Debug, Clone, PartialEq, Eq)]
pub struct EmitUnsupported;

/// Whether the bank's routing can be emitted: a single terminal transform
/// that is not a constant.
pub open spec fn emittable(b: MemoryBank) -> bool {
    match b.routing {
        TopLevelRoutingProgram::Prog(SequenceRoutingProg::Prog(t)) => !(t
            is Constant),
        _ => false,
    }
}

/// The terminal transform of an emittable bank.
pub open spec fn emit_terminal_of(b: MemoryBank) -> TerminalRoutingProgram {
    b.routing->Prog_0->Prog_0
}

/// The line driving the read port of bank `idx`.
pub open spec fn ew_read(idx: nat) -> Seq<char> {
    "read_bank_"@ + dec_str(idx) + "_addr = bank_"@ + dec_str(idx) + ".read_data;\n"@
}

/// The cell declarations of the datapath of bank `idx`.
#[verifier::opaque]
pub open spec fn ew_cells_of(t: TerminalRoutingProgram, idx: nat, abw: nat) -> Seq<char> {
    match t {
        TerminalRoutingProgram::RShift(_) => "rsh_"@ + dec_str(idx) + " = std_rsh("@ + dec_str(
            abw,
        ) + ");\n"@,
        TerminalRoutingProgram::Add(_) => "add_"@ + dec_str(idx) + " = std_add("@ + dec_str(abw)
            + ");\n"@,
        TerminalRoutingProgram::SubPortVal(_) => "sub_"@ + dec_str(idx) + " = std_sub("@
            + dec_str(abw) + ");\n"@,
        TerminalRoutingProgram::SubValPort(_) => "sub_"@ + dec_str(idx) + " = std_sub("@
            + dec_str(abw) + ");\n"@,
        TerminalRoutingProgram::Noop => Seq::empty(),
        TerminalRoutingProgram::Constant(_) => Seq::empty(),
    }
}

/// The wire assignments of the datapath of bank `idx`.
#[verifier::opaque]
pub open spec fn ew_wires_of(t: TerminalRoutingProgram, idx: nat, abw: nat) -> Seq<char> {
    match t {
        TerminalRoutingProgram::RShift(rs) => "rsh_"@ + dec_str(idx) + ".left = bank_"@ + dec_str(
            idx,
        ) + "_addr;\n"@ + "rsh_"@ + dec_str(idx) + ".right = "@ + dec_str(abw) + "'d"@ + dec_str(
            rs as nat,
        ) + ";\n"@ + "bank_"@ + dec_str(idx) + ".addr0 = rsh_"@ + dec_str(idx) + ".out;\n"@
            + ew_read(idx),
        TerminalRoutingProgram::Add(a) => "add_"@ + dec_str(idx) + ".left = bank_"@ + dec_str(idx)
            + "_addr;\n"@ + "add_"@ + dec_str(idx) + ".right = "@ + dec_str(abw) + "'d"@ + dec_str(
            a as nat,
        ) + ";\n"@ + "bank_"@ + dec_str(idx) + ".addr0 = add_"@ + dec_str(idx) + ".out;\n"@
            + ew_read(idx),
        TerminalRoutingProgram::SubPortVal(v) => "sub_"@ + dec_str(idx) + ".left = bank_"@
            + dec_str(idx) + "_addr;\n"@ + "sub_"@ + dec_str(idx) + ".right = "@ + dec_str(abw)
            + "'d"@ + dec_str(v as nat) + ";\n"@ + "bank_"@ + dec_str(idx) + ".addr0 = sub_"@
            + dec_str(idx) + ".out;\n"@ + ew_read(idx),
        TerminalRoutingProgram::SubValPort(v) => "sub_"@ + dec_str(idx) + ".right = bank_"@
            + dec_str(idx) + "_addr;\n"@ + "sub_"@ + dec_str(idx) + ".left = "@ + dec_str(abw)
            + "'d"@ + dec_str(v as nat) + ";\n"@ + "bank_"@ + dec_str(idx) + ".addr0 = sub_"@
            + dec_str(idx) + ".out;\n"@ + ew_read(idx),
        TerminalRoutingProgram::Noop => "bank_"@ + dec_str(idx) + ".addr0 = bank_"@ + dec_str(idx)
            + "_addr;\n"@ + ew_read(idx),
        TerminalRoutingProgram::Constant(_) => Seq::empty(),
    }
}

impl MemoryBank {
    /// Renders the datapath of this bank: its cell declarations and its
    /// wire assignments.
    pub fn emit_wires(&self, bank_idx: usize, addr_width: usize) -> (r: Result<
        (String, String),
        EmitUnsupported,
    >)
        ensures
            r matches Ok((c, w)) ==> emittable(*self) && c@ == ew_cells_of(
                emit_terminal_of(*self),
                bank_idx as nat,
                addr_width as nat,
            ) && w@ == ew_wires_of(emit_terminal_of(*self), bank_idx as nat, addr_width as nat),
            r is Err <==> !emittable(*self),
    {
        let t = match &self.routing {
            TopLevelRoutingProgram::Prog(SequenceRoutingProg::Prog(t)) => t,
            _ => {
                return Err(EmitUnsupported);
            },
        };
        let idx = fmt_u64(bank_idx as u64);
        let abw = fmt_u64(addr_width as u64);
        match t {
            TerminalRoutingProgram::RShift(rs) => {
                let mut c = str_concat("rsh_", idx.as_str());
                c = str_concat(c.as_str(), " = std_rsh(");
                c = str_concat(c.as_str(), abw.as_str());
                c = str_concat(c.as_str(), ");\n");
                let mut w = str_concat("rsh_", idx.as_str());
                w = str_concat(w.as_str(), ".left = bank_");
                w = str_concat(w.as_str(), idx.as_str());
                w = str_concat(w.as_str(), "_addr;\n");
                w = str_concat(w.as_str(), "rsh_");
                w = str_concat(w.as_str(), idx.as_str());
                w = str_concat(w.as_str(), ".right = ");
                w = str_concat(w.as_str(), abw.as_str());
                w = str_concat(w.as_str(), "'d");
                w = str_concat(w.as_str(), fmt_u64(*rs as u64).as_str());
                w = str_concat(w.as_str(), ";\n");
                w = str_concat(w.as_str(), "bank_");
                w = str_concat(w.as_str(), idx.as_str());
                w = str_concat(w.as_str(), ".addr0 = rsh_");
                w = str_concat(w.as_str(), idx.as_str());
                w = str_concat(w.as_str(), ".out;\n");
                w = self.emit_read_line(w, &idx);
                proof {
                    reveal(ew_cells_of);
                    reveal(ew_wires_of);
                    assert(c@ =~= ew_cells_of(
                        emit_terminal_of(*self),
                        bank_idx as nat,
                        addr_width as nat,
                    ));
                    assert(w@ =~= ew_wires_of(
                        emit_terminal_of(*self),
                        bank_idx as nat,
                        addr_width as nat,
                    ));
                }
                Ok((c, w))
            },
            TerminalRoutingProgram::Add(a) => {
                let mut c = str_concat("add_", idx.as_str());
                c = str_concat(c.as_str(), " = std_add(");
                c = str_concat(c.as_str(), abw.as_str());
                c = str_concat(c.as_str(), ");\n");
                let mut w = str_concat("add_", idx.as_str());
                w = str_concat(w.as_str(), ".left = bank_");
                w = str_concat(w.as_str(), idx.as_str());
                w = str_concat(w.as_str(), "_addr;\n");
                w = str_concat(w.as_str(), "add_");
                w = str_concat(w.as_str(), idx.as_str());
                w = str_concat(w.as_str(), ".right = ");
                w = str_concat(w.as_str(), abw.as_str());
                w = str_concat(w.as_str(), "'d");
                w = str_concat(w.as_str(), fmt_u64(*a).as_str());
                w = str_concat(w.as_str(), ";\n");
                w = str_concat(w.as_str(), "bank_");
                w = str_concat(w.as_str(), idx.as_str());
                w = str_concat(w.as_str(), ".addr0 = add_");
                w = str_concat(w.as_str(), idx.as_str());
                w = str_concat(w.as_str(), ".out;\n");
                w = self.emit_read_line(w, &idx);
                proof {
                    reveal(ew_cells_of);
                    reveal(ew_wires_of);
                    assert(c@ =~= ew_cells_of(
                        emit_terminal_of(*self),
                        bank_idx as nat,
                        addr_width as nat,
                    ));
                    assert(w@ =~= ew_wires_of(
                        emit_terminal_of(*self),
                        bank_idx as nat,
                        addr_width as nat,
                    ));
                }
                Ok((c, w))
            },
            TerminalRoutingProgram::SubPortVal(v) => {
                let mut c = str_concat("sub_", idx.as_str());
                c = str_concat(c.as_str(), " = std_sub(");
                c = str_concat(c.as_str(), abw.as_str());
                c = str_concat(c.as_str(), ");\n");
                let mut w = str_concat("sub_", idx.as_str());
                w = str_concat(w.as_str(), ".left = bank_");
                w = str_concat(w.as_str(), idx.as_str());
                w = str_concat(w.as_str(), "_addr;\n");
                w = str_concat(w.as_str(), "sub_");
                w = str_concat(w.as_str(), idx.as_str());
                w = str_concat(w.as_str(), ".right = ");
                w = str_concat(w.as_str(), abw.as_str());
                w = str_concat(w.as_str(), "'d");
                w = str_concat(w.as_str(), fmt_u64(*v).as_str());
                w = str_concat(w.as_str(), ";\n");
                w = str_concat(w.as_str(), "bank_");
                w = str_concat(w.as_str(), idx.as_str());
                w = str_concat(w.as_str(), ".addr0 = sub_");
                w = str_concat(w.as_str(), idx.as_str());
                w = str_concat(w.as_str(), ".out;\n");
                w = self.emit_read_line(w, &idx);
                proof {
                    reveal(ew_cells_of);
                    reveal(ew_wires_of);
                    assert(c@ =~= ew_cells_of(
                        emit_terminal_of(*self),
                        bank_idx as nat,
                        addr_width as nat,
                    ));
                    assert(w@ =~= ew_wires_of(
                        emit_terminal_of(*self),
                        bank_idx as nat,
                        addr_width as nat,
                    ));
                }
                Ok((c, w))
            },
            TerminalRoutingProgram::SubValPort(v) => {
                let mut c = str_concat("sub_", idx.as_str());
                c = str_concat(c.as_str(), " = std_sub(");
                c = str_concat(c.as_str(), abw.as_str());
                c = str_concat(c.as_str(), ");\n");
                let mut w = str_concat("sub_", idx.as_str());
                w = str_concat(w.as_str(), ".right = bank_");
                w = str_concat(w.as_str(), idx.as_str());
                w = str_concat(w.as_str(), "_addr;\n");
                w = str_concat(w.as_str(), "sub_");
                w = str_concat(w.as_str(), idx.as_str());
                w = str_concat(w.as_str(), ".left = ");
                w = str_concat(w.as_str(), abw.as_str());
                w = str_concat(w.as_str(), "'d");
                w = str_concat(w.as_str(), fmt_u64(*v).as_str());
                w = str_concat(w.as_str(), ";\n");
                w = str_concat(w.as_str(), "bank_");
                w = str_concat(w.as_str(), idx.as_str());
                w = str_concat(w.as_str(), ".addr0 = sub_");
                w = str_concat(w.as_str(), idx.as_str());
                w = str_concat(w.as_str(), ".out;\n");
                w = self.emit_read_line(w, &idx);
                proof {
                    reveal(ew_cells_of);
                    reveal(ew_wires_of);
                    assert(c@ =~= ew_cells_of(
                        emit_terminal_of(*self),
                        bank_idx as nat,
                        addr_width as nat,
                    ));
                    assert(w@ =~= ew_wires_of(
                        emit_terminal_of(*self),
                        bank_idx as nat,
                        addr_width as nat,
                    ));
                }
                Ok((c, w))
            },
            TerminalRoutingProgram::Constant(_) => Err(EmitUnsupported),
            TerminalRoutingProgram::Noop => {
                let c = String::new();
                let mut w = str_concat("bank_", idx.as_str());
                w = str_concat(w.as_str(), ".addr0 = bank_");
                w = str_concat(w.as_str(), idx.as_str());
                w = str_concat(w.as_str(), "_addr;\n");
                w = self.emit_read_line(w, &idx);
                proof {
                    reveal(ew_cells_of);
                    reveal(ew_wires_of);
                    assert(c@ =~= ew_cells_of(
                        emit_terminal_of(*self),
                        bank_idx as nat,
                        addr_width as nat,
                    ));
                    assert(w@ =~= ew_wires_of(
                        emit_terminal_of(*self),
                        bank_idx as nat,
                        addr_width as nat,
                    ));
                }
                Ok((c, w))
            },
        }
    }

    /// Appends the read-data wire for bank `idx`.
    fn emit_read_line(&self, w: String, idx: &String) -> (r: String)
        ensures
            r@ == w@ + "read_bank_"@ + idx@ + "_addr = bank_"@ + idx@ + ".read_data;\n"@,
    {
        let mut r = str_concat(w.as_str(), "read_bank_");
        r = str_concat(r.as_str(), idx.as_str());
        r = str_concat(r.as_str(), "_addr = bank_");
        r = str_concat(r.as_str(), idx.as_str());
        r = str_concat(r.as_str(), ".read_data;\n");
        proof {
            assert(r@ =~= w@ + "read_bank_"@ + idx@ + "_addr = bank_"@ + idx@ + ".read_data;\n"@);
        }
        r
    }
}

/// The input port list of the component: one address port per bank.
pub open spec fn ew_in_ports(k: nat, n: nat, abw: nat) -> Seq<char>
    decreases n - k,
{
    if k >= n {
        Seq::empty()
    } else {
        "bank_"@ + dec_str(k) + "_addr:"@ + dec_str(abw) + (if k + 1 < n {
            ", "@
        } else {
            Seq::empty()
        }) + ew_in_ports(k + 1, n, abw)
    }
}

/// The output port list of the component: one read port per bank.
pub open spec fn ew_out_ports(k: nat, n: nat, width: nat) -> Seq<char>
    decreases n - k,
{
    if k >= n {
        Seq::empty()
    } else {
        "read_bank_"@ + dec_str(k) + "_addr:"@ + dec_str(width) + (if k + 1 < n {
            ", "@
        } else {
            Seq::empty()
        }) + ew_out_ports(k + 1, n, width)
    }
}

/// The storage cell declarations, one per bank.
pub open spec fn ew_cells(banks: Seq<MemoryBank>, k: nat, width: nat, abw: nat) -> Seq<char>
    decreases banks.len() - k,
{
    if k >= banks.len() {
        Seq::empty()
    } else {
        "        @external bank_"@ + dec_str(k) + " = std_mem_d1("@ + dec_str(width) + ", "@
            + dec_str(tlml_sum(banks[k as int].memory_layout.mems@) as nat) + ", "@ + dec_str(abw)
            + ");\n"@ + ew_cells(banks, k + 1, width, abw)
    }
}

/// The joined translation-cell text of all banks, each block followed by a
/// blank line.
pub open spec fn ew_all_cells(banks: Seq<MemoryBank>, k: nat, abw: nat) -> Seq<char>
    decreases banks.len() - k,
{
    if k >= banks.len() {
        Seq::empty()
    } else {
        ew_cells_of(emit_terminal_of(banks[k as int]), k, abw) + "\n"@ + ew_all_cells(
            banks,
            k + 1,
            abw,
        )
    }
}

/// The joined wire text of all banks, each block followed by a blank line.
pub open spec fn ew_all_wtext(banks: Seq<MemoryBank>, k: nat, abw: nat) -> Seq<char>
    decreases banks.len() - k,
{
    if k >= banks.len() {
        Seq::empty()
    } else {
        ew_wires_of(emit_terminal_of(banks[k as int]), k, abw) + "\n"@ + ew_all_wtext(
            banks,
            k + 1,
            abw,
        )
    }
}

/// The whole hardware description of a component.
pub open spec fn ew_component(c: Component) -> Seq<char> {
    let n = c.banks@.len();
    let abw = c.address_bit_width as nat;
    let cells_text = ew_all_cells(c.banks@, 0, c.address_bit_width as usize as nat);
    let wires_text = ew_all_wtext(c.banks@, 0, c.address_bit_width as usize as nat);
    "\nimport \"primitives/core.futil\";\ncomponent mem_"@ + dec_str(c.size as nat) + "_"@
        + dec_str(c.port_count as nat) + "("@ + ew_in_ports(0, n, abw) + ") -> ("@ + ew_out_ports(
        0,
        n,
        c.width as nat,
    ) + ") {\n    cells {\n"@ + ew_cells(c.banks@, 0, c.width as nat, abw) + "\n"@ + cells_text
        + "\n    }\n    wires {\n"@ + wires_text + "\n\n    }\n    control {}\n}\n\n\n"@
}

impl Component {
    /// Renders the input port list.
    fn emit_input_ports(&self) -> (r: String)
        requires
            self.banks@.len() >= 1,
        ensures
            r@ == ew_in_ports(0, self.banks@.len() as nat, self.address_bit_width as nat),
    {
        let n = self.banks.len();
        let mut w = String::new();
        let mut k: usize = 0;
        while k < n
            invariant
                n == self.banks@.len(),
                k <= n,
                w@ + ew_in_ports(k as nat, n as nat, self.address_bit_width as nat)
                    == ew_in_ports(0, n as nat, self.address_bit_width as nat),
            decreases n - k,
        {
            w = str_concat(w.as_str(), "bank_");
            w = str_concat(w.as_str(), fmt_u64(k as u64).as_str());
            w = str_concat(w.as_str(), "_addr:");
            w = str_concat(w.as_str(), fmt_u64(self.address_bit_width).as_str());
            if k + 1 < n {
                w = str_concat(w.as_str(), ", ");
            }
            k = k + 1;
        }
        proof {
            assert(ew_in_ports(k as nat, n as nat, self.address_bit_width as nat) =~= Seq::<
                char,
            >::empty());
            assert(w@ =~= w@ + Seq::<char>::empty());
        }
        w
    }

    /// Renders the output port list.
    fn emit_output_ports(&self) -> (r: String)
        requires
            self.banks@.len() >= 1,
        ensures
            r@ == ew_out_ports(0, self.banks@.len() as nat, self.width as nat),
    {
        let n = self.banks.len();
        let mut w = String::new();
        let mut k: usize = 0;
        while k < n
            invariant
                n == self.banks@.len(),
                k <= n,
                w@ + ew_out_ports(k as nat, n as nat, self.width as nat) == ew_out_ports(
                    0,
                    n as nat,
                    self.width as nat,
                ),
            decreases n - k,
        {
            w = str_concat(w.as_str(), "read_bank_");
            w = str_concat(w.as_str(), fmt_u64(k as u64).as_str());
            w = str_concat(w.as_str(), "_addr:");
            w = str_concat(w.as_str(), fmt_u64(self.width).as_str());
            if k + 1 < n {
                w = str_concat(w.as_str(), ", ");
            }
            k = k + 1;
        }
        proof {
            assert(ew_out_ports(k as nat, n as nat, self.width as nat) =~= Seq::<char>::empty());
            assert(w@ =~= w@ + Seq::<char>::empty());
        }
        w
    }

    /// Renders the storage cells, one per bank, sized to the bank.
    fn emit_cells(&self) -> (r: String)
        requires
            forall|k: int|
                0 <= k < self.banks@.len() ==> tlml_ranges_wf(
                    (#[trigger] self.banks@[k]).memory_layout.mems@,
                ) && tlml_sum(self.banks@[k].memory_layout.mems@) <= usize::MAX,
        ensures
            r@ == ew_cells(self.banks@, 0, self.width as nat, self.address_bit_width as nat),
    {
        let n = self.banks.len();
        let mut w = String::new();
        let mut k: usize = 0;
        while k < n
            invariant
                n == self.banks@.len(),
                k <= n,
                forall|t: int|
                    0 <= t < self.banks@.len() ==> tlml_ranges_wf(
                        (#[trigger] self.banks@[t]).memory_layout.mems@,
                    ) && tlml_sum(self.banks@[t].memory_layout.mems@) <= usize::MAX,
                w@ + ew_cells(self.banks@, k as nat, self.width as nat, self.address_bit_width
                    as nat) == ew_cells(self.banks@, 0, self.width as nat, self.address_bit_width
                    as nat),
            decreases n - k,
        {
            proof {
                crate::layout::lemma_tlml_sum_nonneg(self.banks@[k as int].memory_layout.mems@);
            }
            w = str_concat(w.as_str(), "        @external bank_");
            w = str_concat(w.as_str(), fmt_u64(k as u64).as_str());
            w = str_concat(w.as_str(), " = std_mem_d1(");
            w = str_concat(w.as_str(), fmt_u64(self.width).as_str());
            w = str_concat(w.as_str(), ", ");
            w = str_concat(w.as_str(), fmt_u64(self.banks[k].size() as u64).as_str());
            w = str_concat(w.as_str(), ", ");
            w = str_concat(w.as_str(), fmt_u64(self.address_bit_width).as_str());
            w = str_concat(w.as_str(), ");\n");
            k = k + 1;
        }
        proof {
            assert(ew_cells(self.banks@, k as nat, self.width as nat, self.address_bit_width
                as nat) =~= Seq::<char>::empty());
            assert(w@ =~= w@ + Seq::<char>::empty());
        }
        w
    }

    /// Renders the joined datapaths of all banks.
    #[verifier::rlimit(100)]
    fn emit_wires(&self) -> (r: Result<(String, String), EmitUnsupported>)
        ensures
            r matches Ok((c, w)) ==> (forall|k: int|
                0 <= k < self.banks@.len() ==> emittable(#[trigger] self.banks@[k])) && c@
                == ew_all_cells(self.banks@, 0, self.address_bit_width as usize as nat) && w@
                == ew_all_wtext(self.banks@, 0, self.address_bit_width as usize as nat),
            r is Err ==> exists|k: int|
                0 <= k < self.banks@.len() && !emittable(#[trigger] self.banks@[k]),
    {
        let n = self.banks.len();
        #[verifier::truncate]
        let addr_width = self.address_bit_width as usize;
        let mut c = String::new();
        let mut w = String::new();
        let mut k: usize = 0;
        while k < n
            invariant
                n == self.banks@.len(),
                k <= n,
                addr_width == self.address_bit_width as usize,
                forall|t: int| 0 <= t < k ==> emittable(#[trigger] self.banks@[t]),
                c@ + ew_all_cells(self.banks@, k as nat, addr_width as nat) == ew_all_cells(
                    self.banks@,
                    0,
                    addr_width as nat,
                ),
                w@ + ew_all_wtext(self.banks@, k as nat, addr_width as nat) == ew_all_wtext(
                    self.banks@,
                    0,
                    addr_width as nat,
                ),
            decreases n - k,
        {
            let (ic, iw) = match self.banks[k].emit_wires(k, addr_width) {
                Ok(v) => v,
                Err(e) => {
                    return Err(e);
                },
            };
            c = str_concat(c.as_str(), ic.as_str());
            c = str_concat(c.as_str(), "\n");
            w = str_concat(w.as_str(), iw.as_str());
            w = str_concat(w.as_str(), "\n");
            proof {
                assert(ew_all_cells(self.banks@, k as nat, addr_width as nat) == ew_cells_of(
                    emit_terminal_of(self.banks@[k as int]),
                    k as nat,
                    addr_width as nat,
                ) + "\n"@ + ew_all_cells(self.banks@, k as nat + 1, addr_width as nat));
                assert(ew_all_wtext(self.banks@, k as nat, addr_width as nat) == ew_wires_of(
                    emit_terminal_of(self.banks@[k as int]),
                    k as nat,
                    addr_width as nat,
                ) + "\n"@ + ew_all_wtext(self.banks@, k as nat + 1, addr_width as nat));
            }
            k = k + 1;
        }
        proof {
            assert(ew_all_cells(self.banks@, k as nat, addr_width as nat) =~= Seq::<
                char,
            >::empty());
            assert(ew_all_wtext(self.banks@, k as nat, addr_width as nat) =~= Seq::<
                char,
            >::empty());
            assert(c@ =~= c@ + Seq::<char>::empty());
            assert(w@ =~= w@ + Seq::<char>::empty());
        }
        Ok((c, w))
    }

    /// Renders the whole hardware description of the component.
    pub fn emit_calyx_comp(&self) -> (r: Result<String, EmitUnsupported>)
        requires
            self.banks@.len() >= 1,
            forall|k: int|
                0 <= k < self.banks@.len() ==> tlml_ranges_wf(
                    (#[trigger] self.banks@[k]).memory_layout.mems@,
                ) && tlml_sum(self.banks@[k].memory_layout.mems@) <= usize::MAX,
        ensures
            r matches Ok(text) ==> (forall|k: int|
                0 <= k < self.banks@.len() ==> emittable(#[trigger] self.banks@[k])) && text@
                == ew_component(*self),
            r is Err ==> exists|k: int|
                0 <= k < self.banks@.len() && !emittable(#[trigger] self.banks@[k]),
    {
        let (translation_cells, wires) = match self.emit_wires() {
            Ok(v) => v,
            Err(e) => {
                return Err(e);
            },
        };
        let mut w = str_concat("\nimport \"primitives/core.futil\";\ncomponent mem_", fmt_u64(
            self.size,
        ).as_str());
        w = str_concat(w.as_str(), "_");
        w = str_concat(w.as_str(), fmt_u64(self.port_count).as_str());
        w = str_concat(w.as_str(), "(");
        w = str_concat(w.as_str(), self.emit_input_ports().as_str());
        w = str_concat(w.as_str(), ") -> (");
        w = str_concat(w.as_str(), self.emit_output_ports().as_str());
        w = str_concat(w.as_str(), ") {\n    cells {\n");
        w = str_concat(w.as_str(), self.emit_cells().as_str());
        w = str_concat(w.as_str(), "\n");
        w = str_concat(w.as_str(), translation_cells.as_str());
        w = str_concat(w.as_str(), "\n    }\n    wires {\n");
        w = str_concat(w.as_str(), wires.as_str());
        w = str_concat(w.as_str(), "\n\n    }\n    control {}\n}\n\n\n");
        proof {
            assert(w@ =~= ew_component(*self));
        }
        Ok(w)
    }
}

} // verus!
