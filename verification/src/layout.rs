//! Memory layouts: arithmetic progressions over the logical address space.
//!
//! A `MemoryLayout` range `[start:finish:stride]` holds the addresses
//! `start, start + stride, ...` strictly below `finish`.  A
//! `TopLevelMemoryLayout` concatenates several ranges; its indices run over
//! the first range, then the second, and so on.

use vstd::arithmetic::div_mod::{
    lemma_div_multiples_vanish,
    lemma_fundamental_div_mod,
    lemma_mod_multiples_basic,
};
use vstd::arithmetic::mul::lemma_mul_inequality;
use vstd::prelude::*;

verus! {

/// One arithmetic progression of logical addresses.
#[derive(Debug, Clone, PartialEq, Eq)]
pub enum MemoryLayout {
    Range { start: usize, finish: usize, stride: usize },
}

/// A range is well formed when it is non-empty and steps forward.
pub open spec fn layout_wf(m: MemoryLayout) -> bool {
    match m {
        MemoryLayout::Range { start, finish, stride } => start < finish && stride >= 1,
    }
}

/// Number of addresses the range holds: one for each multiple of the stride
/// from `start` strictly below `finish`.
pub open spec fn layout_size(m: MemoryLayout) -> int {
    match m {
        MemoryLayout::Range { start, finish, stride } => (finish - start - 1) / (stride as int)
            + 1,
    }
}

/// Whether the range holds the address `target`.
pub open spec fn layout_contains(m: MemoryLayout, target: int) -> bool {
    match m {
        MemoryLayout::Range { start, finish, stride } => start <= target < finish && (target
            - start) % (stride as int) == 0,
    }
}

/// Position of a held address within the range.
pub open spec fn layout_index_of(m: MemoryLayout, target: int) -> int {
    match m {
        MemoryLayout::Range { start, finish, stride } => (target - start) / (stride as int),
    }
}

/// The address at position `i` of the range.
pub open spec fn layout_at(m: MemoryLayout, i: int) -> int {
    match m {
        MemoryLayout::Range { start, finish, stride } => start + i * stride,
    }
}

/// An address at a valid position stays strictly below `finish`.
pub proof fn lemma_at_below_finish(m: MemoryLayout, i: int)
    requires
        layout_wf(m),
        0 <= i < layout_size(m),
    ensures
        layout_at(m, i) < m->finish,
        layout_at(m, i) >= m->start,
{
    let start = m->start as int;
    let finish = m->finish as int;
    let stride = m->stride as int;
    let q = (finish - start - 1) / stride;
    lemma_fundamental_div_mod(finish - start - 1, stride);
    lemma_mul_inequality(i, q, stride);
    assert(i * stride <= q * stride);
    assert(q * stride <= finish - start - 1) by {
        assert(finish - start - 1 == q * stride + (finish - start - 1) % stride);
        assert((finish - start - 1) % stride >= 0);
    }
    assert(i * stride >= 0) by (nonlinear_arith)
        requires
            i >= 0,
            stride >= 1,
    ;
}

/// `get(i)` is defined exactly for the positions `i < size`.
///
/// This is the definedness half of the layout algebra; the executable `get`
/// carries it as its contract as well.
pub proof fn lemma_get_defined_iff(m: MemoryLayout, i: int)
    requires
        layout_wf(m),
        0 <= i,
    ensures
        layout_contains(m, layout_at(m, i)) <==> i < layout_size(m),
{
    if i < layout_size(m) {
        lemma_contains_at(m, i);
    } else {
        let start = m->start as int;
        let finish = m->finish as int;
        let stride = m->stride as int;
        let q = (finish - start - 1) / stride;
        if layout_contains(m, layout_at(m, i)) {
            assert(start + i * stride < finish);
            assert(i * stride <= finish - start - 1);
            lemma_fundamental_div_mod(finish - start - 1, stride);
            assert(i > q);
            lemma_mul_inequality(q + 1, i, stride);
            assert((q + 1) * stride <= i * stride);
            assert((q + 1) * stride == q * stride + stride) by (nonlinear_arith);
            assert((finish - start - 1) % stride < stride);
            assert(false);
        }
    }
}

/// Every address the range yields at a valid position is held by the range.
pub proof fn lemma_contains_at(m: MemoryLayout, i: int)
    requires
        layout_wf(m),
        0 <= i < layout_size(m),
    ensures
        layout_contains(m, layout_at(m, i)),
{
    let stride = m->stride as int;
    lemma_at_below_finish(m, i);
    lemma_mod_multiples_basic(i, stride);
}

/// Asking the range for the position of `get(i)` yields `i` back.
pub proof fn lemma_index_of_at(m: MemoryLayout, i: int)
    requires
        layout_wf(m),
        0 <= i < layout_size(m),
    ensures
        layout_index_of(m, layout_at(m, i)) == i,
{
    let stride = m->stride as int;
    lemma_div_multiples_vanish(i, stride);
    assert(stride * i == i * stride) by (nonlinear_arith);
}

impl MemoryLayout {
    /// Builds the range `[start:finish:stride]`; an omitted stride is 1.
    pub fn new(start: usize, finish: usize, stride: Option<usize>) -> (r: Self)
        requires
            start < finish,
            stride matches Some(s) ==> s != 0,
        ensures
            r == (MemoryLayout::Range {
                start,
                finish,
                stride: match stride {
                    Some(s) => s,
                    None => 1usize,
                },
            }),
            layout_wf(r),
    {
        let stride = match stride {
            Some(s) => s,
            None => 1,
        };
        Self::Range { start, finish, stride }
    }

    /// Whether the progression holds `target`.
    pub fn _contains(&self, target: &usize) -> (r: bool)
        requires
            layout_wf(*self),
        ensures
            r == layout_contains(*self, *target as int),
    {
        match self {
            MemoryLayout::Range { start, finish, stride } => *target >= *start && *target
                < *finish && ((*target - *start) % *stride) == 0,
        }
    }

    /// Position of `target` in the progression, if held.
    pub fn _index_of(&self, target: &usize) -> (r: Option<usize>)
        requires
            layout_wf(*self),
        ensures
            r == if layout_contains(*self, *target as int) {
                Some(layout_index_of(*self, *target as int) as usize)
            } else {
                Option::<usize>::None
            },
    {
        if self._contains(target) {
            let out = match self {
                MemoryLayout::Range { start, stride, .. } => (*target - *start) / *stride,
            };
            return Some(out);
        }
        None
    }

    /// How many addresses the progression holds.
    pub fn size(&self) -> (r: usize)
        requires
            layout_wf(*self),
        ensures
            r == layout_size(*self),
    {
        match self {
            MemoryLayout::Range { start, finish, stride } => ((*finish - *start - 1) / *stride)
                + 1,
        }
    }

    /// All held addresses, in position order.
    pub fn _gen_array(&self) -> (r: Vec<usize>)
        requires
            layout_wf(*self),
        ensures
            r@.len() == layout_size(*self),
            forall|i: int| 0 <= i < r@.len() ==> r@[i] == layout_at(*self, i),
    {
        let count = self.size();
        let mut out: Vec<usize> = Vec::new();
        let (start, stride) = match self {
            MemoryLayout::Range { start, stride, .. } => (*start, *stride),
        };
        let mut i: usize = 0;
        while i < count
            invariant
                layout_wf(*self),
                count == layout_size(*self),
                start == self->start,
                stride == self->stride,
                i <= count,
                out@.len() == i,
                forall|j: int| 0 <= j < i ==> out@[j] == layout_at(*self, j),
            decreases count - i,
        {
            proof {
                lemma_at_below_finish(*self, i as int);
            }
            out.push(start + i * stride);
            i = i + 1;
        }
        out
    }

    /// Index of the last held address.
    pub fn _last_idx(&self) -> (r: usize)
        requires
            layout_wf(*self),
        ensures
            r == layout_size(*self) - 1,
    {
        self.size() - 1
    }

    /// The address at position `idx`, if `idx` is below the size.
    pub fn get(&self, idx: &usize) -> (r: Option<usize>)
        requires
            layout_wf(*self),
        ensures
            r == if (*idx as int) < layout_size(*self) {
                Some(layout_at(*self, *idx as int) as usize)
            } else {
                Option::<usize>::None
            },
    {
        if *idx >= self.size() {
            return None;
        }
        let (start, stride) = match self {
            MemoryLayout::Range { start, stride, .. } => (*start, *stride),
        };
        proof {
            lemma_at_below_finish(*self, *idx as int);
            assert(stride as int * (*idx as int) == (*idx as int) * (stride as int))
                by (nonlinear_arith);
        }
        Some(start + stride * *idx)
    }
}

/// An ordered list of ranges read as one address list.
#[derive(Debug, Clone, PartialEq, Eq)]
pub struct TopLevelMemoryLayout {
    pub mems: Vec<MemoryLayout>,
}

/// All ranges of the list are well formed.
pub open spec fn tlml_ranges_wf(ms: Seq<MemoryLayout>) -> bool {
    forall|i: int| 0 <= i < ms.len() ==> layout_wf(#[trigger] ms[i])
}

/// A top-level layout is well formed when it holds at least one range and
/// each range is well formed.
pub open spec fn tlml_wf(l: TopLevelMemoryLayout) -> bool {
    l.mems@.len() >= 1 && tlml_ranges_wf(l.mems@)
}

/// Total number of addresses over all ranges.
pub open spec fn tlml_sum(ms: Seq<MemoryLayout>) -> int
    decreases ms.len(),
{
    if ms.len() == 0 {
        0
    } else {
        layout_size(ms.first()) + tlml_sum(ms.drop_first())
    }
}

/// The address at concatenated position `i`: the first range serves the
/// lowest positions, the next range the following ones, and so on.
pub open spec fn tlml_at(ms: Seq<MemoryLayout>, i: int) -> Option<int>
    decreases ms.len(),
{
    if ms.len() == 0 || i < 0 {
        None
    } else if i < layout_size(ms.first()) {
        Some(layout_at(ms.first(), i))
    } else {
        tlml_at(ms.drop_first(), i - layout_size(ms.first()))
    }
}

/// Whether any range holds `target`.
pub open spec fn tlml_contains(ms: Seq<MemoryLayout>, target: int) -> bool {
    exists|i: int| 0 <= i < ms.len() && layout_contains(#[trigger] ms[i], target)
}

/// Concatenated position of `target`: its position in the first range that
/// holds it, offset by the sizes of the ranges before that one.
pub open spec fn tlml_index_of(ms: Seq<MemoryLayout>, target: int) -> Option<int>
    decreases ms.len(),
{
    if ms.len() == 0 {
        None
    } else if layout_contains(ms.first(), target) {
        Some(layout_index_of(ms.first(), target))
    } else {
        match tlml_index_of(ms.drop_first(), target) {
            Some(p) => Some(p + layout_size(ms.first())),
            None => None,
        }
    }
}

/// The total size of a list of well-formed ranges is non-negative.
pub proof fn lemma_tlml_sum_nonneg(ms: Seq<MemoryLayout>)
    requires
        tlml_ranges_wf(ms),
    ensures
        tlml_sum(ms) >= 0,
    decreases ms.len(),
{
    if ms.len() > 0 {
        assert(layout_wf(ms.first()));
        lemma_tlml_sum_nonneg(ms.drop_first());
    }
}

impl TopLevelMemoryLayout {
    /// Wraps a list of ranges.
    pub fn new(mems: Vec<MemoryLayout>) -> (r: Self)
        ensures
            r.mems == mems,
    {
        Self { mems }
    }

    /// The view of the ranges, for contracts.
    pub open spec fn ranges(self) -> Seq<MemoryLayout> {
        self.mems@
    }

    /// Total number of addresses over all ranges.  The total must fit in a
    /// machine word.
    pub fn size(&self) -> (r: usize)
        requires
            tlml_ranges_wf(self.mems@),
            tlml_sum(self.mems@) <= usize::MAX,
        ensures
            r == tlml_sum(self.mems@),
    {
        proof {
            assert(self.mems@.skip(0) =~= self.mems@);
        }
        let mut acc: usize = 0;
        let mut i: usize = 0;
        while i < self.mems.len()
            invariant
                tlml_ranges_wf(self.mems@),
                tlml_sum(self.mems@) <= usize::MAX,
                i <= self.mems@.len(),
                acc + tlml_sum(self.mems@.skip(i as int)) == tlml_sum(self.mems@),
            decreases self.mems@.len() - i,
        {
            proof {
                assert(self.mems@.skip(i as int).first() == self.mems@[i as int]);
                assert(self.mems@.skip(i as int).drop_first() =~= self.mems@.skip(i as int + 1));
                lemma_tlml_sum_nonneg(self.mems@.skip(i as int + 1));
            }
            acc = acc + self.mems[i].size();
            i = i + 1;
        }
        proof {
            assert(self.mems@.skip(i as int) =~= Seq::<MemoryLayout>::empty());
        }
        acc
    }

    /// Total number of addresses, or `None` when the total would not fit in
    /// a machine word.
    pub fn size_checked(&self) -> (r: Option<usize>)
        requires
            tlml_ranges_wf(self.mems@),
        ensures
            r matches Some(s) ==> s == tlml_sum(self.mems@),
            r is None <==> tlml_sum(self.mems@) > usize::MAX,
    {
        proof {
            assert(self.mems@.skip(0) =~= self.mems@);
        }
        let mut acc: usize = 0;
        let mut i: usize = 0;
        while i < self.mems.len()
            invariant
                tlml_ranges_wf(self.mems@),
                i <= self.mems@.len(),
                acc + tlml_sum(self.mems@.skip(i as int)) == tlml_sum(self.mems@),
            decreases self.mems@.len() - i,
        {
            proof {
                assert(self.mems@.skip(i as int).first() == self.mems@[i as int]);
                assert(self.mems@.skip(i as int).drop_first() =~= self.mems@.skip(i as int + 1));
                lemma_tlml_sum_nonneg(self.mems@.skip(i as int + 1));
            }
            let sz = self.mems[i].size();
            match acc.checked_add(sz) {
                Some(next) => {
                    acc = next;
                },
                None => {
                    return None;
                },
            }
            i = i + 1;
        }
        proof {
            assert(self.mems@.skip(i as int) =~= Seq::<MemoryLayout>::empty());
        }
        Some(acc)
    }

    /// Whether any range holds `target`.
    pub fn _contains(&self, target: &usize) -> (r: bool)
        requires
            tlml_ranges_wf(self.mems@),
        ensures
            r == tlml_contains(self.mems@, *target as int),
    {
        let mut i: usize = 0;
        while i < self.mems.len()
            invariant
                tlml_ranges_wf(self.mems@),
                i <= self.mems@.len(),
                forall|j: int|
                    0 <= j < i ==> !layout_contains(#[trigger] self.mems@[j], *target as int),
            decreases self.mems@.len() - i,
        {
            if self.mems[i]._contains(target) {
                return true;
            }
            i = i + 1;
        }
        false
    }

    /// Concatenated position of `target`, if some range holds it.
    pub fn _index_of(&self, target: &usize) -> (r: Option<usize>)
        requires
            tlml_ranges_wf(self.mems@),
            tlml_sum(self.mems@) <= usize::MAX,
        ensures
            r == match tlml_index_of(self.mems@, *target as int) {
                Some(p) => Some(p as usize),
                None => Option::<usize>::None,
            },
    {
        proof {
            assert(self.mems@.skip(0) =~= self.mems@);
            lemma_tlml_sum_nonneg(self.mems@);
        }
        let mut idx: usize = 0;
        let mut i: usize = 0;
        while i < self.mems.len()
            invariant
                tlml_ranges_wf(self.mems@),
                tlml_sum(self.mems@) <= usize::MAX,
                i <= self.mems@.len(),
                idx == tlml_sum(self.mems@) - tlml_sum(self.mems@.skip(i as int)),
                tlml_sum(self.mems@.skip(i as int)) >= 0,
                tlml_index_of(self.mems@, *target as int) == match tlml_index_of(
                    self.mems@.skip(i as int),
                    *target as int,
                ) {
                    Some(p) => Some(p + idx),
                    None => Option::<int>::None,
                },
            decreases self.mems@.len() - i,
        {
            proof {
                assert(self.mems@.skip(i as int).first() == self.mems@[i as int]);
                assert(self.mems@.skip(i as int).drop_first() =~= self.mems@.skip(i as int + 1));
                lemma_tlml_sum_nonneg(self.mems@.skip(i as int + 1));
                if layout_contains(self.mems@[i as int], *target as int) {
                    lemma_index_of_in_range(self.mems@[i as int], *target as int);
                }
            }
            let mem = &self.mems[i];
            if mem._contains(target) {
                let within = match mem {
                    MemoryLayout::Range { start, stride, .. } => (*target - *start) / *stride,
                };
                return Some(idx + within);
            } else {
                idx = idx + mem.size();
            }
            i = i + 1;
        }
        proof {
            assert(self.mems@.skip(i as int) =~= Seq::<MemoryLayout>::empty());
        }
        None
    }

    /// The address at concatenated position `idx`, if `idx` is within the
    /// total size.
    pub fn get(&self, idx: &usize) -> (r: Option<usize>)
        requires
            tlml_ranges_wf(self.mems@),
        ensures
            r == match tlml_at(self.mems@, *idx as int) {
                Some(a) => Some(a as usize),
                None => Option::<usize>::None,
            },
    {
        proof {
            assert(self.mems@.skip(0) =~= self.mems@);
        }
        let mut bottom_idx: usize = 0;
        let mut i: usize = 0;
        while i < self.mems.len()
            invariant
                tlml_ranges_wf(self.mems@),
                i <= self.mems@.len(),
                bottom_idx <= *idx,
                tlml_at(self.mems@, *idx as int) == tlml_at(
                    self.mems@.skip(i as int),
                    *idx - bottom_idx,
                ),
            decreases self.mems@.len() - i,
        {
            proof {
                assert(self.mems@.skip(i as int).first() == self.mems@[i as int]);
                assert(self.mems@.skip(i as int).drop_first() =~= self.mems@.skip(i as int + 1));
            }
            let mem = &self.mems[i];
            let sz = mem.size();
            if *idx - bottom_idx < sz {
                let within = *idx - bottom_idx;
                proof {
                    lemma_at_below_finish(self.mems@[i as int], within as int);
                }
                return mem.get(&within);
            } else {
                bottom_idx = bottom_idx + sz;
            }
            i = i + 1;
        }
        proof {
            assert(self.mems@.skip(i as int) =~= Seq::<MemoryLayout>::empty());
        }
        None
    }
}

/// The position of a held address is within the range's size.
pub proof fn lemma_index_of_in_range(m: MemoryLayout, target: int)
    requires
        layout_wf(m),
        layout_contains(m, target),
    ensures
        0 <= layout_index_of(m, target) < layout_size(m),
{
    let start = m->start as int;
    let finish = m->finish as int;
    let stride = m->stride as int;
    lemma_fundamental_div_mod(target - start, stride);
    lemma_fundamental_div_mod(finish - start - 1, stride);
    let q = (target - start) / stride;
    let qm = (finish - start - 1) / stride;
    assert(q * stride == target - start);
    assert(q >= 0) by (nonlinear_arith)
        requires
            q * stride == target - start,
            target >= start,
            stride >= 1,
    ;
    assert(q <= qm) by (nonlinear_arith)
        requires
            q * stride <= finish - start - 1,
            qm * stride + (finish - start - 1) % stride == finish - start - 1,
            0 <= (finish - start - 1) % stride < stride,
            stride >= 1,
    ;
}

impl TopLevelMemoryLayout {
    /// A top-level layout of a single range.
    pub fn from_single(mem: MemoryLayout) -> (r: Self)
        ensures
            r.ranges() =~= seq![mem],
    {
        Self { mems: vec![mem] }
    }
}

} // verus!
