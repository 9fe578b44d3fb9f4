//! Access traces: per-cycle, per-port read requests against the logical
//! memory, held as a sparse rectangular schedule.
//!
//! Normalization drops lines in which every slot is absent and pads the
//! remaining lines with absents up to the widest kept line.

use vstd::arithmetic::power2::pow2;
use vstd::prelude::*;

verus! {

/// A trace: logical memory size, element bitwidth, and the request lines.
/// Each line holds one optional address per port.
#[derive(Debug, Clone, PartialEq, Eq)]
pub struct Trace {
    /// the number of entries in the logical memory
    pub size: usize,
    /// the bitwidth of the elements in the logical memory
    pub bitwidth: usize,
    /// the input trace
    pub trace: Vec<Vec<Option<usize>>>,
}

/// The lines of a trace as a sequence of sequences.
pub open spec fn lines_view(v: Vec<Vec<Option<usize>>>) -> Seq<Seq<Option<usize>>> {
    v@.map_values(|l: Vec<Option<usize>>| l@)
}

/// A line with at least one present request.
pub open spec fn line_live(l: Seq<Option<usize>>) -> bool {
    exists|j: int| 0 <= j < l.len() && l[j] is Some
}

/// The lines with at least one present request, in order.
pub open spec fn keep_live(ls: Seq<Seq<Option<usize>>>) -> Seq<Seq<Option<usize>>>
    decreases ls.len(),
{
    if ls.len() == 0 {
        Seq::empty()
    } else if line_live(ls.first()) {
        seq![ls.first()] + keep_live(ls.drop_first())
    } else {
        keep_live(ls.drop_first())
    }
}

/// Length of the longest line.
pub open spec fn max_line_len(ls: Seq<Seq<Option<usize>>>) -> nat
    decreases ls.len(),
{
    if ls.len() == 0 {
        0
    } else {
        let rest = max_line_len(ls.drop_first());
        if ls.first().len() >= rest {
            ls.first().len()
        } else {
            rest
        }
    }
}

/// The line extended with absents up to length `p`.
pub open spec fn pad_line(l: Seq<Option<usize>>, p: nat) -> Seq<Option<usize>> {
    if l.len() >= p {
        l
    } else {
        l + Seq::new((p - l.len()) as nat, |j: int| Option::<usize>::None)
    }
}

/// Normalized form of a list of lines: all-absent lines dropped, the rest
/// padded to the widest kept line.
pub open spec fn normalize_lines(ls: Seq<Seq<Option<usize>>>) -> Seq<Seq<Option<usize>>> {
    let kept = keep_live(ls);
    kept.map_values(|l: Seq<Option<usize>>| pad_line(l, max_line_len(kept)))
}

proof fn lemma_keep_live_push(ls: Seq<Seq<Option<usize>>>, x: Seq<Option<usize>>)
    ensures
        keep_live(ls.push(x)) == if line_live(x) {
            keep_live(ls).push(x)
        } else {
            keep_live(ls)
        },
    decreases ls.len(),
{
    if ls.len() == 0 {
        assert(ls.push(x).drop_first() =~= ls);
        assert(ls.push(x).first() == x);
        if line_live(x) {
            assert(keep_live(ls.push(x)) =~= keep_live(ls).push(x));
        }
    } else {
        assert(ls.push(x).drop_first() =~= ls.drop_first().push(x));
        assert(ls.push(x).first() == ls.first());
        lemma_keep_live_push(ls.drop_first(), x);
        if line_live(x) {
            assert(keep_live(ls.push(x)) =~= keep_live(ls).push(x));
        }
    }
}

proof fn lemma_max_line_len_push(ls: Seq<Seq<Option<usize>>>, x: Seq<Option<usize>>)
    ensures
        max_line_len(ls.push(x)) == if x.len() >= max_line_len(ls) {
            x.len()
        } else {
            max_line_len(ls)
        },
    decreases ls.len(),
{
    if ls.len() == 0 {
        assert(ls.push(x).drop_first() =~= ls);
    } else {
        assert(ls.push(x).drop_first() =~= ls.drop_first().push(x));
        assert(ls.push(x).first() == ls.first());
        lemma_max_line_len_push(ls.drop_first(), x);
    }
}

/// Every kept line has a present request.
pub proof fn lemma_keep_live_all_live(ls: Seq<Seq<Option<usize>>>)
    ensures
        forall|i: int| 0 <= i < keep_live(ls).len() ==> line_live(#[trigger] keep_live(ls)[i]),
    decreases ls.len(),
{
    if ls.len() > 0 {
        lemma_keep_live_all_live(ls.drop_first());
        assert forall|i: int| 0 <= i < keep_live(ls).len() implies line_live(
            #[trigger] keep_live(ls)[i],
        ) by {
            if line_live(ls.first()) {
                if i == 0 {
                    assert(keep_live(ls)[0] == ls.first());
                } else {
                    assert(keep_live(ls)[i] == keep_live(ls.drop_first())[i - 1]);
                }
            } else {
                assert(keep_live(ls)[i] == keep_live(ls.drop_first())[i]);
            }
        }
    }
}

/// The longest line bounds every line.
pub proof fn lemma_max_line_len_ge(ls: Seq<Seq<Option<usize>>>)
    ensures
        forall|i: int| 0 <= i < ls.len() ==> (#[trigger] ls[i]).len() <= max_line_len(ls),
    decreases ls.len(),
{
    if ls.len() > 0 {
        lemma_max_line_len_ge(ls.drop_first());
        assert forall|i: int| 0 <= i < ls.len() implies (#[trigger] ls[i]).len() <= max_line_len(
            ls,
        ) by {
            if i > 0 {
                assert(ls[i] == ls.drop_first()[i - 1]);
                assert(ls.drop_first()[i - 1].len() <= max_line_len(ls.drop_first()));
            }
        }
    }
}

proof fn lemma_keep_live_of_all_live(ls: Seq<Seq<Option<usize>>>)
    requires
        forall|i: int| 0 <= i < ls.len() ==> line_live(#[trigger] ls[i]),
    ensures
        keep_live(ls) == ls,
    decreases ls.len(),
{
    if ls.len() == 0 {
        assert(keep_live(ls) =~= ls);
    } else {
        assert(forall|i: int|
            0 <= i < ls.drop_first().len() ==> line_live(#[trigger] ls.drop_first()[i]))
            by {
            assert(forall|i: int|
                0 <= i < ls.drop_first().len() ==> ls.drop_first()[i] == #[trigger] ls[i + 1]);
        }
        lemma_keep_live_of_all_live(ls.drop_first());
        assert(keep_live(ls) =~= ls);
    }
}

proof fn lemma_max_line_len_uniform(ls: Seq<Seq<Option<usize>>>, p: nat)
    requires
        forall|i: int| 0 <= i < ls.len() ==> (#[trigger] ls[i]).len() == p,
    ensures
        max_line_len(ls) == if ls.len() == 0 {
            0nat
        } else {
            p
        },
    decreases ls.len(),
{
    if ls.len() > 0 {
        assert(forall|i: int|
            0 <= i < ls.drop_first().len() ==> (#[trigger] ls.drop_first()[i]).len() == p) by {
            assert(forall|i: int|
                0 <= i < ls.drop_first().len() ==> ls.drop_first()[i] == #[trigger] ls[i + 1]);
        }
        lemma_max_line_len_uniform(ls.drop_first(), p);
    }
}

/// After normalization no line is entirely absent and every line has the
/// same length, the number of ports.
pub proof fn lemma_normalize_shape(ls: Seq<Seq<Option<usize>>>)
    ensures
        forall|i: int|
            0 <= i < normalize_lines(ls).len() ==> line_live(#[trigger] normalize_lines(ls)[i]),
        forall|i: int|
            0 <= i < normalize_lines(ls).len() ==> (#[trigger] normalize_lines(ls)[i]).len()
                == max_line_len(keep_live(ls)),
{
    let kept = keep_live(ls);
    let p = max_line_len(kept);
    lemma_keep_live_all_live(ls);
    lemma_max_line_len_ge(kept);
    assert forall|i: int| 0 <= i < normalize_lines(ls).len() implies line_live(
        #[trigger] normalize_lines(ls)[i],
    ) && (normalize_lines(ls)[i]).len() == p by {
        assert(normalize_lines(ls)[i] == pad_line(kept[i], p));
        assert(line_live(kept[i]));
        let j = choose|j: int| 0 <= j < kept[i].len() && kept[i][j] is Some;
        assert(pad_line(kept[i], p)[j] == kept[i][j]);
    }
}

/// Normalizing twice is the same as normalizing once.
pub proof fn lemma_normalize_idempotent(ls: Seq<Seq<Option<usize>>>)
    ensures
        normalize_lines(normalize_lines(ls)) == normalize_lines(ls),
{
    let r = normalize_lines(ls);
    let p = max_line_len(keep_live(ls));
    lemma_normalize_shape(ls);
    lemma_keep_live_of_all_live(r);
    assert(keep_live(r) == r);
    lemma_max_line_len_uniform(r, p);
    if r.len() == 0 {
        assert(normalize_lines(r) =~= r);
    } else {
        assert(max_line_len(r) == p);
        assert(normalize_lines(r) =~= r) by {
            assert(forall|i: int|
                0 <= i < r.len() ==> pad_line(#[trigger] r[i], p) == r[i]);
        }
    }
}

/// Whether the line holds at least one present request.
pub fn line_has_request(l: &Vec<Option<usize>>) -> (r: bool)
    ensures
        r == line_live(l@),
{
    let mut j: usize = 0;
    while j < l.len()
        invariant
            j <= l@.len(),
            forall|k: int| 0 <= k < j ==> l@[k] is None,
        decreases l@.len() - j,
    {
        if l[j].is_some() {
            return true;
        }
        j = j + 1;
    }
    false
}

fn pad_copy(l: &Vec<Option<usize>>, p: usize) -> (r: Vec<Option<usize>>)
    ensures
        r@ == pad_line(l@, p as nat),
{
    let mut out: Vec<Option<usize>> = Vec::new();
    let mut j: usize = 0;
    while j < l.len()
        invariant
            j <= l@.len(),
            out@ =~= l@.take(j as int),
        decreases l@.len() - j,
    {
        out.push(l[j]);
        j = j + 1;
    }
    proof {
        assert(out@ =~= l@);
    }
    while out.len() < p
        invariant
            out@.len() >= l@.len(),
            out@.take(l@.len() as int) =~= l@,
            forall|k: int| l@.len() <= k < out@.len() ==> out@[k] is None,
            out@.len() <= p || out@.len() == l@.len(),
        decreases p - out@.len(),
    {
        out.push(None);
    }
    proof {
        assert(out@ =~= pad_line(l@, p as nat));
    }
    out
}

impl Trace {
    /// Builds a trace and brings it to normalized form.
    pub fn new(size: usize, bitwidth: usize, trace: Vec<Vec<Option<usize>>>) -> (r: Self)
        ensures
            r.size == size,
            r.bitwidth == bitwidth,
            lines_view(r.trace) == normalize_lines(lines_view(trace)),
    {
        let mut t = Trace { size, bitwidth, trace };
        t.normalize();
        t
    }

    /// The number of entries in the logical memory.
    pub fn size(&self) -> (r: usize)
        ensures
            r == self.size,
    {
        self.size
    }

    /// The bitwidth of the stored elements.
    pub fn bitwidth(&self) -> (r: usize)
        ensures
            r == self.bitwidth,
    {
        self.bitwidth
    }

    /// Drops all-absent lines and pads the kept lines with absents up to the
    /// widest kept line.
    pub fn normalize(&mut self)
        ensures
            final(self).size == old(self).size,
            final(self).bitwidth == old(self).bitwidth,
            lines_view(final(self).trace) == normalize_lines(lines_view(old(self).trace)),
    {
        let ghost ls = lines_view(self.trace);
        let p = self.ports_required();
        let mut out: Vec<Vec<Option<usize>>> = Vec::new();
        let mut i: usize = 0;
        while i < self.trace.len()
            invariant
                ls == lines_view(self.trace),
                p == max_line_len(keep_live(ls)),
                i <= self.trace@.len(),
                lines_view(out) =~= keep_live(ls.take(i as int)).map_values(
                    |l: Seq<Option<usize>>| pad_line(l, p as nat),
                ),
            decreases self.trace@.len() - i,
        {
            proof {
                assert(ls.take(i as int + 1) =~= ls.take(i as int).push(ls[i as int]));
                lemma_keep_live_push(ls.take(i as int), ls[i as int]);
                assert(ls[i as int] == self.trace@[i as int]@);
            }
            let line = &self.trace[i];
            if line_has_request(line) {
                let padded = pad_copy(line, p);
                out.push(padded);
                proof {
                    let f = |l: Seq<Option<usize>>| pad_line(l, p as nat);
                    assert(lines_view(out) =~= keep_live(ls.take(i as int)).map_values(f).push(
                        f(ls[i as int]),
                    ));
                    assert(keep_live(ls.take(i as int + 1)).map_values(f) =~= keep_live(
                        ls.take(i as int),
                    ).map_values(f).push(f(ls[i as int])));
                }
            }
            i = i + 1;
        }
        proof {
            assert(ls.take(i as int) =~= ls);
        }
        self.trace = out;
    }

    /// Length of the longest line with a present request.
    fn ports_required(&self) -> (r: usize)
        ensures
            r == max_line_len(keep_live(lines_view(self.trace))),
    {
        let ghost ls = lines_view(self.trace);
        let mut p: usize = 0;
        let mut i: usize = 0;
        while i < self.trace.len()
            invariant
                ls == lines_view(self.trace),
                i <= self.trace@.len(),
                p == max_line_len(keep_live(ls.take(i as int))),
            decreases self.trace@.len() - i,
        {
            proof {
                assert(ls.take(i as int + 1) =~= ls.take(i as int).push(ls[i as int]));
                lemma_keep_live_push(ls.take(i as int), ls[i as int]);
                if line_live(ls[i as int]) {
                    lemma_max_line_len_push(keep_live(ls.take(i as int)), ls[i as int]);
                }
                assert(ls[i as int] == self.trace@[i as int]@);
            }
            let line = &self.trace[i];
            if line_has_request(line) {
                if line.len() > p {
                    p = line.len();
                }
            }
            i = i + 1;
        }
        proof {
            assert(ls.take(i as int) =~= ls);
        }
        p
    }

    /// Number of ports: the width of the (normalized) first line.
    pub fn num_ports(&self) -> (r: usize)
        ensures
            r == if lines_view(self.trace).len() == 0 {
                0int
            } else {
                lines_view(self.trace)[0].len() as int
            },
    {
        if self.trace.len() == 0 {
            0
        } else {
            self.trace[0].len()
        }
    }

    /// The request lines.
    pub fn iter(&self) -> (r: &Vec<Vec<Option<usize>>>)
        ensures
            r == &self.trace,
    {
        &self.trace
    }

    /// Number of address bits the constraint encoding uses for this trace.
    pub fn bits_required(&self) -> (r: u32)
        ensures
            r >= 1,
            pow2(r as nat) >= self.size,
            r > 1 ==> pow2((r - 1) as nat) < self.size,
    {
        bits_required(self.size)
    }
}

/// The number of bits needed to address `size` entries: the smallest `n >= 1`
/// with `2^n >= size`.
pub fn bits_required(size: usize) -> (r: u32)
    ensures
        r >= 1,
        pow2(r as nat) >= size,
        r > 1 ==> pow2((r - 1) as nat) < size,
{
    proof {
        vstd::arithmetic::power2::lemma2_to64();
    }
    let mut n: u32 = 1;
    let mut cap: usize = 2;
    while cap < size
        invariant
            1 <= n <= 64,
            cap == pow2(n as nat),
            n > 1 ==> pow2((n - 1) as nat) < size,
            cap <= usize::MAX,
        decreases 64 - n,
    {
        proof {
            vstd::arithmetic::power2::lemma_pow2_unfold(n as nat + 1);
            if n == 64 {
                vstd::arithmetic::power2::lemma2_to64_rest();
                assert(false);
            }
            assert(pow2(n as nat + 1) == 2 * pow2(n as nat));
        }
        if cap > usize::MAX / 2 {
            return n + 1;
        }
        cap = cap * 2;
        n = n + 1;
    }
    n
}

} // verus!
