//! The reader inverts the printers: parsing a rendered value yields the
//! value back.
//!
//! The lemmas build up from numerals through terminals and ranges to whole
//! components.  Each one places the rendered text inside a larger input at
//! a stated position and gives the exact parse result there.

use crate::dsl::{
    digit_val,
    is_digit,
    is_ws,
    lit_at,
    scan_dec,
    skip_ws,
    sp_lit,
    sp_num,
    sp_range,
    sp_terminal,
};
use crate::layout::{layout_wf, MemoryLayout};
use crate::pretty::{dec_digit, dec_str, pp_cond, pp_range, pp_terminal};
use crate::routing::{Condition, TerminalRoutingProgram};
use vstd::prelude::*;

verus! {

/// Skipping whitespace walks exactly over a run of whitespace that ends at
/// a non-whitespace character or at the end of the input.
pub proof fn lemma_skip_ws_run(s: Seq<char>, i: int, j: int)
    requires
        0 <= i <= j <= s.len(),
        forall|k: int| i <= k < j ==> is_ws(#[trigger] s[k]),
        j == s.len() || !is_ws(s[j]),
    ensures
        skip_ws(s, i) == j,
    decreases j - i,
{
    if i < j {
        assert(is_ws(s[i]));
        lemma_skip_ws_run(s, i + 1, j);
    }
}

/// A character of a text placed inside a larger input.
pub proof fn lemma_text_index(s: Seq<char>, j: int, t: Seq<char>, off: int)
    requires
        0 <= j,
        j + t.len() <= s.len(),
        s.subrange(j, j + t.len()) == t,
        0 <= off < t.len(),
    ensures
        s[j + off] == t[off],
{
    assert(s.subrange(j, j + t.len())[off] == t[off]);
}

/// A slice of a text placed inside a larger input.
pub proof fn lemma_text_subrange(s: Seq<char>, j: int, t: Seq<char>, lo: int, hi: int)
    requires
        0 <= j,
        j + t.len() <= s.len(),
        s.subrange(j, j + t.len()) == t,
        0 <= lo <= hi <= t.len(),
    ensures
        s.subrange(j + lo, j + hi) == t.subrange(lo, hi),
{
    assert forall|x: int| 0 <= x < hi - lo implies s.subrange(j + lo, j + hi)[x] == t.subrange(
        lo,
        hi,
    )[x] by {
        assert(s.subrange(j, j + t.len())[lo + x] == t[lo + x]);
    }
    assert(s.subrange(j + lo, j + hi) =~= t.subrange(lo, hi));
}

/// The value a left-to-right scan accumulates over a digit string.
pub open spec fn scan_val(acc: nat, ds: Seq<char>) -> nat
    decreases ds.len(),
{
    if ds.len() == 0 {
        acc
    } else {
        scan_val(acc * 10 + digit_val(ds.first()), ds.drop_first())
    }
}

proof fn lemma_scan_val_push(acc: nat, ds: Seq<char>, d: char)
    ensures
        scan_val(acc, ds.push(d)) == scan_val(acc, ds) * 10 + digit_val(d),
    decreases ds.len(),
{
    if ds.len() == 0 {
        assert(ds.push(d).first() == d);
        assert(ds.push(d).drop_first() =~= ds);
        assert(scan_val(acc, ds.push(d)) == scan_val(acc * 10 + digit_val(d), ds));
        assert(scan_val(acc, ds) == acc);
        assert(scan_val(acc * 10 + digit_val(d), ds) == acc * 10 + digit_val(d));
    } else {
        assert(ds.push(d).drop_first() =~= ds.drop_first().push(d));
        assert(ds.push(d).first() == ds.first());
        lemma_scan_val_push(acc * 10 + digit_val(ds.first()), ds.drop_first(), d);
        assert(scan_val(acc, ds.push(d)) == scan_val(
            acc * 10 + digit_val(ds.first()),
            ds.drop_first().push(d),
        ));
        assert(scan_val(acc, ds) == scan_val(acc * 10 + digit_val(ds.first()), ds.drop_first()));
    }
}

/// Every character of a decimal numeral is a digit, the numeral is
/// non-empty, and it starts with `0` only for the value zero.
pub proof fn lemma_dec_str_digits(n: nat)
    ensures
        dec_str(n).len() >= 1,
        forall|k: int| 0 <= k < dec_str(n).len() ==> is_digit(#[trigger] dec_str(n)[k]),
        dec_str(n)[0] == '0' <==> n == 0,
    decreases n,
{
    if n < 10 {
        assert(dec_str(n)[0] == dec_digit(n));
        assert(is_digit(dec_digit(n)));
        assert(dec_digit(n) == '0' <==> n == 0);
    } else {
        lemma_dec_str_digits(n / 10);
        assert forall|k: int| 0 <= k < dec_str(n).len() implies is_digit(
            #[trigger] dec_str(n)[k],
        ) by {
            if k < dec_str(n / 10).len() {
                assert(dec_str(n)[k] == dec_str(n / 10)[k]);
            } else {
                assert(dec_str(n)[k] == dec_digit(n % 10));
            }
        }
        assert(dec_str(n)[0] == dec_str(n / 10)[0]);
    }
}

proof fn lemma_scan_val_of_dec_str(n: nat)
    ensures
        scan_val(0, dec_str(n)) == n,
    decreases n,
{
    if n < 10 {
        let ds = dec_str(n);
        assert(ds.first() == dec_digit(n));
        assert(digit_val(dec_digit(n)) == n);
        assert(ds.drop_first() =~= Seq::<char>::empty());
        assert(scan_val(n, Seq::<char>::empty()) == n);
        assert(scan_val(0, ds) == scan_val(0 * 10 + digit_val(ds.first()), ds.drop_first()));
    } else {
        lemma_scan_val_of_dec_str(n / 10);
        lemma_scan_val_push(0, dec_str(n / 10), dec_digit(n % 10));
        assert(digit_val(dec_digit(n % 10)) == n % 10);
    }
}

proof fn lemma_scan_dec_run(s: Seq<char>, i: int, ds: Seq<char>, acc: nat)
    requires
        0 <= i,
        i + ds.len() <= s.len(),
        s.subrange(i, i + ds.len()) == ds,
        forall|k: int| 0 <= k < ds.len() ==> is_digit(#[trigger] ds[k]),
        i + ds.len() == s.len() || !is_digit(s[i + ds.len()]),
    ensures
        scan_dec(s, i, acc) == (scan_val(acc, ds), i + ds.len()),
    decreases ds.len(),
{
    if ds.len() == 0 {
        assert(scan_dec(s, i, acc) == (acc, i));
    } else {
        lemma_text_index(s, i, ds, 0);
        assert(is_digit(s[i]));
        lemma_text_subrange(s, i, ds, 1, ds.len() as int);
        assert(ds.subrange(1, ds.len() as int) =~= ds.drop_first());
        assert forall|k: int| 0 <= k < ds.drop_first().len() implies is_digit(
            #[trigger] ds.drop_first()[k],
        ) by {
            assert(ds.drop_first()[k] == ds[k + 1]);
        }
        lemma_scan_dec_run(s, i + 1, ds.drop_first(), acc * 10 + digit_val(s[i]));
        assert(digit_val(s[i]) == digit_val(ds.first()));
    }
}

/// Reading a number over a printed decimal numeral yields the number and
/// stops right past its digits, provided the next character is neither a
/// digit nor an `x`.
pub proof fn lemma_rt_num(s: Seq<char>, i: int, n: u64)
    requires
        0 <= i <= s.len(),
        ({
            let j = skip_ws(s, i);
            let e = j + dec_str(n as nat).len();
            &&& e <= s.len()
            &&& s.subrange(j, e) == dec_str(n as nat)
            &&& (e == s.len() || (!is_digit(s[e]) && s[e] != 'x'))
        }),
    ensures
        sp_num(s, i) == Ok::<(u64, int), int>((n, skip_ws(s, i) + dec_str(n as nat).len())),
{
    crate::dsl::lemma_skip_ws_bounds(s, i);
    let j = skip_ws(s, i);
    let ds = dec_str(n as nat);
    let e = j + ds.len();
    lemma_dec_str_digits(n as nat);
    lemma_text_index(s, j, ds, 0);
    assert(s[j] == ds[0]);
    if n == 0 {
        assert(ds[0] == dec_digit(0));
        assert(s[j] == '0');
        if j + 1 < s.len() && s[j + 1] == 'x' {
            if ds.len() > 1 {
                lemma_text_index(s, j, ds, 1);
                assert(is_digit(s[j + 1]));
                assert(false);
            } else {
                assert(j + 1 == e);
                assert(false);
            }
        }
    } else {
        assert(s[j] != '0');
    }
    assert(is_digit(s[j]));
    lemma_scan_dec_run(s, j, ds, 0);
    lemma_scan_val_of_dec_str(n as nat);
}

/// Reading an expected literal over its own text succeeds and stops right
/// past it.
pub proof fn lemma_rt_lit(s: Seq<char>, i: int, lit: Seq<char>)
    requires
        0 <= i <= s.len(),
        ({
            let j = skip_ws(s, i);
            &&& j + lit.len() <= s.len()
            &&& s.subrange(j, j + lit.len()) == lit
        }),
    ensures
        sp_lit(s, i, lit) == Ok::<int, int>(skip_ws(s, i) + lit.len()),
{
    crate::dsl::lemma_skip_ws_bounds(s, i);
    let j = skip_ws(s, i);
    assert(lit_at(s, j, lit));
}

/// Reading a terminal transform over its printed text yields the transform
/// back, provided the character after the text continues no number and the
/// next non-whitespace character is not a minus sign.
pub proof fn lemma_rt_terminal(s: Seq<char>, i: int, t: TerminalRoutingProgram)
    requires
        0 <= i <= s.len(),
        ({
            let j = skip_ws(s, i);
            let e = j + pp_terminal(t).len();
            &&& e <= s.len()
            &&& s.subrange(j, e) == pp_terminal(t)
            &&& (e == s.len() || (!is_digit(s[e]) && s[e] != 'x'))
            &&& (skip_ws(s, e) == s.len() || s[skip_ws(s, e)] != '-')
        }),
    ensures
        sp_terminal(s, i) matches Ok(r) && r.0 == t && r.1 == skip_ws(s, i) + pp_terminal(
            t,
        ).len(),
{
    match t {
        TerminalRoutingProgram::Noop => lemma_rt_terminal_noop(s, i, t),
        TerminalRoutingProgram::RShift(_) => lemma_rt_terminal_rshift(s, i, t),
        TerminalRoutingProgram::Add(_) => lemma_rt_terminal_add(s, i, t),
        TerminalRoutingProgram::SubPortVal(_) => lemma_rt_terminal_subportval(s, i, t),
        TerminalRoutingProgram::SubValPort(_) => lemma_rt_terminal_subvalport(s, i, t),
        TerminalRoutingProgram::Constant(_) => lemma_rt_terminal_constant(s, i, t),
    }
}

proof fn lemma_rt_terminal_noop(s: Seq<char>, i: int, t: TerminalRoutingProgram)
    requires
        0 <= i <= s.len(),
        ({
            let j = skip_ws(s, i);
            let e = j + pp_terminal(t).len();
            &&& e <= s.len()
            &&& s.subrange(j, e) == pp_terminal(t)
            &&& (e == s.len() || (!is_digit(s[e]) && s[e] != 'x'))
            &&& (skip_ws(s, e) == s.len() || s[skip_ws(s, e)] != '-')
        }),
        t is Noop,
    ensures
        sp_terminal(s, i) matches Ok(r) && r.0 == t && r.1 == skip_ws(s, i) + pp_terminal(
            t,
        ).len(),
{
    reveal(crate::dsl::sp_terminal);
    crate::dsl::lemma_skip_ws_bounds(s, i);
    let j = skip_ws(s, i);
    let pp = pp_terminal(t);
    let e = j + pp.len();
    reveal_strlit("NOOP");
    reveal_strlit("INPUT");
    reveal_strlit("INPUT >> ");
    reveal_strlit("INPUT + ");
    reveal_strlit("INPUT - ");
    reveal_strlit(" - INPUT");
    reveal_strlit(">>");
    lemma_text_subrange(s, j, pp, 0, 4);
    assert(s.subrange(j, j + 4) =~= "NOOP"@);
    assert(lit_at(s, j, "NOOP"@));
}

proof fn lemma_rt_terminal_rshift(s: Seq<char>, i: int, t: TerminalRoutingProgram)
    requires
        0 <= i <= s.len(),
        ({
            let j = skip_ws(s, i);
            let e = j + pp_terminal(t).len();
            &&& e <= s.len()
            &&& s.subrange(j, e) == pp_terminal(t)
            &&& (e == s.len() || (!is_digit(s[e]) && s[e] != 'x'))
            &&& (skip_ws(s, e) == s.len() || s[skip_ws(s, e)] != '-')
        }),
        t is RShift,
    ensures
        sp_terminal(s, i) matches Ok(r) && r.0 == t && r.1 == skip_ws(s, i) + pp_terminal(
            t,
        ).len(),
{
    reveal(crate::dsl::sp_terminal);
    crate::dsl::lemma_skip_ws_bounds(s, i);
    let j = skip_ws(s, i);
    let pp = pp_terminal(t);
    let e = j + pp.len();
    reveal_strlit("NOOP");
    reveal_strlit("INPUT");
    reveal_strlit("INPUT >> ");
    reveal_strlit("INPUT + ");
    reveal_strlit("INPUT - ");
    reveal_strlit(" - INPUT");
    reveal_strlit(">>");
    let v = t->RShift_0;
    let ds = dec_str(v as nat);
    lemma_dec_str_digits(v as nat);
    assert(pp.subrange(0, 5) =~= "INPUT"@);
    lemma_input_op_prefix(s, j, pp, '>');
    let k = j + 6;
    lemma_text_subrange(s, j, pp, 6, 8);
    assert(pp.subrange(6, 8) =~= ">>"@);
    assert(lit_at(s, k, ">>"@));
    lemma_text_index(s, j, pp, 8);
    assert(s[j + 8] == ' ');
    lemma_text_index(s, j, pp, 9);
    assert(s[j + 9] == ds[0]);
    lemma_skip_ws_run(s, j + 8, j + 9);
    lemma_text_subrange(s, j, pp, 9, pp.len() as int);
    assert(pp.subrange(9, pp.len() as int) =~= ds);
    lemma_rt_num(s, j + 8, v as u64);
}

proof fn lemma_rt_terminal_add(s: Seq<char>, i: int, t: TerminalRoutingProgram)
    requires
        0 <= i <= s.len(),
        ({
            let j = skip_ws(s, i);
            let e = j + pp_terminal(t).len();
            &&& e <= s.len()
            &&& s.subrange(j, e) == pp_terminal(t)
            &&& (e == s.len() || (!is_digit(s[e]) && s[e] != 'x'))
            &&& (skip_ws(s, e) == s.len() || s[skip_ws(s, e)] != '-')
        }),
        t is Add,
    ensures
        sp_terminal(s, i) matches Ok(r) && r.0 == t && r.1 == skip_ws(s, i) + pp_terminal(
            t,
        ).len(),
{
    reveal(crate::dsl::sp_terminal);
    crate::dsl::lemma_skip_ws_bounds(s, i);
    let j = skip_ws(s, i);
    let pp = pp_terminal(t);
    let e = j + pp.len();
    reveal_strlit("NOOP");
    reveal_strlit("INPUT");
    reveal_strlit("INPUT >> ");
    reveal_strlit("INPUT + ");
    reveal_strlit("INPUT - ");
    reveal_strlit(" - INPUT");
    reveal_strlit(">>");
    let v = t->Add_0;
    let ds = dec_str(v as nat);
    lemma_dec_str_digits(v as nat);
    assert(pp.subrange(0, 5) =~= "INPUT"@);
    lemma_input_op_prefix(s, j, pp, '+');
    let k = j + 6;
    assert(!lit_at(s, k, ">>"@)) by {
        if lit_at(s, k, ">>"@) {
            assert(s.subrange(k, k + 2)[0] == '>');
            assert(s[k] == '+');
        }
    }
    lemma_text_index(s, j, pp, 7);
    assert(s[j + 7] == ' ');
    lemma_text_index(s, j, pp, 8);
    assert(s[j + 8] == ds[0]);
    lemma_skip_ws_run(s, j + 7, j + 8);
    lemma_text_subrange(s, j, pp, 8, pp.len() as int);
    assert(pp.subrange(8, pp.len() as int) =~= ds);
    lemma_rt_num(s, j + 7, v);
}

proof fn lemma_rt_terminal_subportval(s: Seq<char>, i: int, t: TerminalRoutingProgram)
    requires
        0 <= i <= s.len(),
        ({
            let j = skip_ws(s, i);
            let e = j + pp_terminal(t).len();
            &&& e <= s.len()
            &&& s.subrange(j, e) == pp_terminal(t)
            &&& (e == s.len() || (!is_digit(s[e]) && s[e] != 'x'))
            &&& (skip_ws(s, e) == s.len() || s[skip_ws(s, e)] != '-')
        }),
        t is SubPortVal,
    ensures
        sp_terminal(s, i) matches Ok(r) && r.0 == t && r.1 == skip_ws(s, i) + pp_terminal(
            t,
        ).len(),
{
    reveal(crate::dsl::sp_terminal);
    crate::dsl::lemma_skip_ws_bounds(s, i);
    let j = skip_ws(s, i);
    let pp = pp_terminal(t);
    let e = j + pp.len();
    reveal_strlit("NOOP");
    reveal_strlit("INPUT");
    reveal_strlit("INPUT >> ");
    reveal_strlit("INPUT + ");
    reveal_strlit("INPUT - ");
    reveal_strlit(" - INPUT");
    reveal_strlit(">>");
    let v = t->SubPortVal_0;
    let ds = dec_str(v as nat);
    lemma_dec_str_digits(v as nat);
    assert(pp.subrange(0, 5) =~= "INPUT"@);
    lemma_input_op_prefix(s, j, pp, '-');
    let k = j + 6;
    assert(!lit_at(s, k, ">>"@)) by {
        if lit_at(s, k, ">>"@) {
            assert(s.subrange(k, k + 2)[0] == '>');
            assert(s[k] == '-');
        }
    }
    lemma_text_index(s, j, pp, 7);
    assert(s[j + 7] == ' ');
    lemma_text_index(s, j, pp, 8);
    assert(s[j + 8] == ds[0]);
    lemma_skip_ws_run(s, j + 7, j + 8);
    lemma_text_subrange(s, j, pp, 8, pp.len() as int);
    assert(pp.subrange(8, pp.len() as int) =~= ds);
    lemma_rt_num(s, j + 7, v);
}

proof fn lemma_rt_terminal_subvalport(s: Seq<char>, i: int, t: TerminalRoutingProgram)
    requires
        0 <= i <= s.len(),
        ({
            let j = skip_ws(s, i);
            let e = j + pp_terminal(t).len();
            &&& e <= s.len()
            &&& s.subrange(j, e) == pp_terminal(t)
            &&& (e == s.len() || (!is_digit(s[e]) && s[e] != 'x'))
            &&& (skip_ws(s, e) == s.len() || s[skip_ws(s, e)] != '-')
        }),
        t is SubValPort,
    ensures
        sp_terminal(s, i) matches Ok(r) && r.0 == t && r.1 == skip_ws(s, i) + pp_terminal(
            t,
        ).len(),
{
    reveal(crate::dsl::sp_terminal);
    crate::dsl::lemma_skip_ws_bounds(s, i);
    let j = skip_ws(s, i);
    let pp = pp_terminal(t);
    let e = j + pp.len();
    reveal_strlit("NOOP");
    reveal_strlit("INPUT");
    reveal_strlit("INPUT >> ");
    reveal_strlit("INPUT + ");
    reveal_strlit("INPUT - ");
    reveal_strlit(" - INPUT");
    reveal_strlit(">>");
    let v = t->SubValPort_0;
    let ds = dec_str(v as nat);
    let dl = ds.len() as int;
    lemma_dec_str_digits(v as nat);
    lemma_text_index(s, j, pp, 0);
    assert(s[j] == ds[0]);
    lemma_not_a_keyword(s, j, ds[0]);
    lemma_skip_ws_run(s, j, j);
    lemma_text_subrange(s, j, pp, 0, dl);
    assert(pp.subrange(0, dl) =~= ds);
    lemma_text_index(s, j, pp, dl);
    assert(s[j + dl] == ' ');
    lemma_rt_num(s, j, v);
    let p = j + dl;
    lemma_text_index(s, j, pp, dl + 1);
    assert(s[p + 1] == '-');
    lemma_skip_ws_run(s, p, p + 1);
    lemma_text_index(s, j, pp, dl + 2);
    assert(s[p + 2] == ' ');
    lemma_text_index(s, j, pp, dl + 3);
    assert(s[p + 3] == 'I');
    lemma_skip_ws_run(s, p + 2, p + 3);
    lemma_text_subrange(s, j, pp, dl + 3, pp.len() as int);
    assert(pp.subrange(dl + 3, pp.len() as int) =~= "INPUT"@);
    lemma_rt_lit(s, p + 2, "INPUT"@);
    assert(sp_terminal(s, i) matches Ok(r) && r.0 == t && r.1 == j + pp.len());
}

proof fn lemma_rt_terminal_constant(s: Seq<char>, i: int, t: TerminalRoutingProgram)
    requires
        0 <= i <= s.len(),
        ({
            let j = skip_ws(s, i);
            let e = j + pp_terminal(t).len();
            &&& e <= s.len()
            &&& s.subrange(j, e) == pp_terminal(t)
            &&& (e == s.len() || (!is_digit(s[e]) && s[e] != 'x'))
            &&& (skip_ws(s, e) == s.len() || s[skip_ws(s, e)] != '-')
        }),
        t is Constant,
    ensures
        sp_terminal(s, i) matches Ok(r) && r.0 == t && r.1 == skip_ws(s, i) + pp_terminal(
            t,
        ).len(),
{
    reveal(crate::dsl::sp_terminal);
    crate::dsl::lemma_skip_ws_bounds(s, i);
    let j = skip_ws(s, i);
    let pp = pp_terminal(t);
    let e = j + pp.len();
    reveal_strlit("NOOP");
    reveal_strlit("INPUT");
    reveal_strlit("INPUT >> ");
    reveal_strlit("INPUT + ");
    reveal_strlit("INPUT - ");
    reveal_strlit(" - INPUT");
    reveal_strlit(">>");
    let n = t->Constant_0;
    let ds = dec_str(n as nat);
    lemma_dec_str_digits(n as nat);
    lemma_text_index(s, j, pp, 0);
    assert(s[j] == ds[0]);
    lemma_not_a_keyword(s, j, ds[0]);
    lemma_text_subrange(s, j, pp, 0, pp.len() as int);
    assert(pp.subrange(0, pp.len() as int) =~= ds);
    lemma_rt_num(s, i, n);
}

/// A position whose character is a digit starts neither keyword.
proof fn lemma_not_a_keyword(s: Seq<char>, j: int, c: char)
    requires
        0 <= j < s.len(),
        s[j] == c,
        is_digit(c),
    ensures
        !lit_at(s, j, "NOOP"@),
        !lit_at(s, j, "INPUT"@),
{
    reveal_strlit("NOOP");
    reveal_strlit("INPUT");
    if lit_at(s, j, "NOOP"@) {
        assert(s.subrange(j, j + 4)[0] == 'N');
    }
    if lit_at(s, j, "INPUT"@) {
        assert(s.subrange(j, j + 5)[0] == 'I');
    }
}

/// The printed text of a terminal that starts with `INPUT` followed by an
/// operator character at offset 6: the keyword is found, `NOOP` is not, and
/// whitespace skipping from the keyword stops at the operator.
proof fn lemma_input_op_prefix(s: Seq<char>, j: int, pp: Seq<char>, op: char)
    requires
        0 <= j,
        j + pp.len() <= s.len(),
        s.subrange(j, j + pp.len()) == pp,
        pp.len() >= 7,
        pp.subrange(0, 5) == "INPUT"@,
        pp[5] == ' ',
        pp[6] == op,
        !is_ws(op),
    ensures
        lit_at(s, j, "INPUT"@),
        !lit_at(s, j, "NOOP"@),
        skip_ws(s, j + 5) == j + 6,
        s[j + 6] == op,
{
    reveal_strlit("NOOP");
    reveal_strlit("INPUT");
    lemma_text_subrange(s, j, pp, 0, 5);
    assert(lit_at(s, j, "INPUT"@));
    lemma_text_index(s, j, pp, 0);
    assert(!lit_at(s, j, "NOOP"@)) by {
        if lit_at(s, j, "NOOP"@) {
            assert(s.subrange(j, j + 4)[0] == 'N');
            assert(s[j] == 'I');
        }
    }
    lemma_text_index(s, j, pp, 5);
    lemma_text_index(s, j, pp, 6);
    lemma_skip_ws_run(s, j + 5, j + 6);
}

/// Reading a range over its printed text yields the range back.
pub proof fn lemma_rt_range(s: Seq<char>, i: int, m: MemoryLayout)
    requires
        0 <= i <= s.len(),
        layout_wf(m),
        ({
            let j = skip_ws(s, i);
            &&& j + pp_range(m).len() <= s.len()
            &&& s.subrange(j, j + pp_range(m).len()) == pp_range(m)
        }),
    ensures
        sp_range(s, i) == Ok::<(MemoryLayout, int), int>((m, skip_ws(s, i) + pp_range(m).len())),
{
    reveal(crate::dsl::sp_range);
    crate::dsl::lemma_skip_ws_bounds(s, i);
    let j = skip_ws(s, i);
    let pp = pp_range(m);
    let e = j + pp.len();
    reveal_strlit("[");
    reveal_strlit(":");
    reveal_strlit("]");
    let ds = dec_str(m->start as nat);
    let df = dec_str(m->finish as nat);
    let dt = dec_str(m->stride as nat);
    let a = ds.len() as int;
    let b = df.len() as int;
    let c = dt.len() as int;
    lemma_dec_str_digits(m->start as nat);
    lemma_dec_str_digits(m->finish as nat);
    lemma_dec_str_digits(m->stride as nat);
    lemma_text_subrange(s, j, pp, 0, 1);
    assert(pp.subrange(0, 1) =~= "["@);
    lemma_rt_lit(s, i, "["@);
    let p0 = j + 1;
    lemma_text_index(s, j, pp, 1);
    assert(s[p0] == ds[0]);
    lemma_skip_ws_run(s, p0, p0);
    lemma_text_subrange(s, j, pp, 1, 1 + a);
    assert(pp.subrange(1, 1 + a) =~= ds);
    lemma_text_index(s, j, pp, 1 + a);
    assert(s[p0 + a] == ':');
    lemma_rt_num(s, p0, m->start as u64);
    let p1 = p0 + a;
    lemma_skip_ws_run(s, p1, p1);
    lemma_text_subrange(s, j, pp, 1 + a, 2 + a);
    assert(pp.subrange(1 + a, 2 + a) =~= ":"@);
    lemma_rt_lit(s, p1, ":"@);
    let p2 = p1 + 1;
    lemma_text_index(s, j, pp, 2 + a);
    assert(s[p2] == df[0]);
    lemma_skip_ws_run(s, p2, p2);
    lemma_text_subrange(s, j, pp, 2 + a, 2 + a + b);
    assert(pp.subrange(2 + a, 2 + a + b) =~= df);
    lemma_text_index(s, j, pp, 2 + a + b);
    assert(s[p2 + b] == ':');
    lemma_rt_num(s, p2, m->finish as u64);
    let p3 = p2 + b;
    lemma_skip_ws_run(s, p3, p3);
    lemma_text_subrange(s, j, pp, 2 + a + b, 3 + a + b);
    assert(pp.subrange(2 + a + b, 3 + a + b) =~= ":"@);
    lemma_rt_lit(s, p3, ":"@);
    let p4 = p3 + 1;
    lemma_text_index(s, j, pp, 3 + a + b);
    assert(s[p4] == dt[0]);
    lemma_skip_ws_run(s, p4, p4);
    lemma_text_subrange(s, j, pp, 3 + a + b, 3 + a + b + c);
    assert(pp.subrange(3 + a + b, 3 + a + b + c) =~= dt);
    lemma_text_index(s, j, pp, 3 + a + b + c);
    assert(s[p4 + c] == ']');
    lemma_rt_num(s, p4, m->stride as u64);
    let p5 = p4 + c;
    lemma_skip_ws_run(s, p5, p5);
    lemma_text_subrange(s, j, pp, 3 + a + b + c, 4 + a + b + c);
    assert(pp.subrange(3 + a + b + c, 4 + a + b + c) =~= "]"@);
    lemma_rt_lit(s, p5, "]"@);
}

/// The first character of a printed terminal: the start of a keyword or a
/// digit, never whitespace, a bracket, an `s`, or a minus sign.
proof fn lemma_pp_terminal_first(t: TerminalRoutingProgram)
    ensures
        pp_terminal(t).len() >= 1,
        pp_terminal(t)[0] == 'I' || pp_terminal(t)[0] == 'N' || is_digit(pp_terminal(t)[0]),
        !is_ws(pp_terminal(t)[0]),
        pp_terminal(t)[0] != '[',
        pp_terminal(t)[0] != 's',
{
    reveal_strlit("NOOP");
    reveal_strlit("INPUT >> ");
    reveal_strlit("INPUT + ");
    reveal_strlit("INPUT - ");
    match t {
        TerminalRoutingProgram::SubValPort(v) => {
            lemma_dec_str_digits(v as nat);
            assert(pp_terminal(t)[0] == dec_str(v as nat)[0]);
        },
        TerminalRoutingProgram::Constant(n) => {
            lemma_dec_str_digits(n as nat);
            assert(pp_terminal(t)[0] == dec_str(n as nat)[0]);
        },
        _ => {},
    }
}

/// The first character of a printed condition: a keyword start, a digit, a
/// negation, or an opening parenthesis; never whitespace.
proof fn lemma_pp_cond_first(c: Condition)
    ensures
        pp_cond(c).len() >= 1,
        c is ComparisonPortVal ==> pp_cond(c)[0] == 'I',
        c is ComparisonValPort ==> is_digit(pp_cond(c)[0]),
        c is Not ==> pp_cond(c)[0] == '!',
        c is And || c is Or ==> pp_cond(c)[0] == '(',
        !is_ws(pp_cond(c)[0]),
        pp_cond(c)[0] != '-',
{
    reveal_strlit("INPUT ");
    reveal_strlit("(");
    reveal_strlit("!(");
    match c {
        Condition::ComparisonPortVal(_, _) => {
            assert(pp_cond(c)[0] == "INPUT "@[0]);
        },
        Condition::ComparisonValPort(val, _) => {
            lemma_dec_str_digits(val as nat);
            assert(pp_cond(c)[0] == dec_str(val as nat)[0]);
        },
        Condition::And(_, _) => {
            assert(pp_cond(c)[0] == "("@[0]);
        },
        Condition::Or(_, _) => {
            assert(pp_cond(c)[0] == "("@[0]);
        },
        Condition::Not(_) => {
            assert(pp_cond(c)[0] == "!("@[0]);
        },
    }
}

/// Reading a comparison operator over its printed text yields the operator
/// back, provided no equals sign follows.
proof fn lemma_rt_cmp_op(s: Seq<char>, i: int, op: crate::routing::ComparisonOperator)
    requires
        0 <= i <= s.len(),
        ({
            let j = skip_ws(s, i);
            let e = j + crate::pretty::pp_cmp(op).len();
            &&& e <= s.len()
            &&& s.subrange(j, e) == crate::pretty::pp_cmp(op)
            &&& (e == s.len() || s[e] != '=')
        }),
    ensures
        crate::dsl::sp_cmp_op(s, i) == Ok::<(crate::routing::ComparisonOperator, int), int>(
            (op, skip_ws(s, i) + crate::pretty::pp_cmp(op).len()),
        ),
{
    crate::dsl::lemma_skip_ws_bounds(s, i);
    let j = skip_ws(s, i);
    let pp = crate::pretty::pp_cmp(op);
    let e = j + pp.len();
    reveal_strlit("<");
    reveal_strlit(">");
    reveal_strlit("==");
    reveal_strlit("!=");
    reveal_strlit("<=");
    reveal_strlit(">=");
    lemma_text_index(s, j, pp, 0);
    if pp.len() == 2 {
        lemma_text_index(s, j, pp, 1);
    }
    match op {
        crate::routing::ComparisonOperator::LessThan => {
            assert(s[j] == '<');
            assert(!lit_at(s, j, "<="@)) by {
                if lit_at(s, j, "<="@) {
                    assert(s.subrange(j, j + 2)[1] == '=');
                }
            }
            assert(!lit_at(s, j, ">="@)) by {
                if lit_at(s, j, ">="@) {
                    assert(s.subrange(j, j + 2)[0] == '>');
                }
            }
            assert(!lit_at(s, j, "=="@)) by {
                if lit_at(s, j, "=="@) {
                    assert(s.subrange(j, j + 2)[0] == '=');
                }
            }
            assert(!lit_at(s, j, "!="@)) by {
                if lit_at(s, j, "!="@) {
                    assert(s.subrange(j, j + 2)[0] == '!');
                }
            }
        },
        crate::routing::ComparisonOperator::GreaterThan => {
            assert(s[j] == '>');
            assert(!lit_at(s, j, "<="@)) by {
                if lit_at(s, j, "<="@) {
                    assert(s.subrange(j, j + 2)[0] == '<');
                }
            }
            assert(!lit_at(s, j, ">="@)) by {
                if lit_at(s, j, ">="@) {
                    assert(s.subrange(j, j + 2)[1] == '=');
                }
            }
            assert(!lit_at(s, j, "=="@)) by {
                if lit_at(s, j, "=="@) {
                    assert(s.subrange(j, j + 2)[0] == '=');
                }
            }
            assert(!lit_at(s, j, "!="@)) by {
                if lit_at(s, j, "!="@) {
                    assert(s.subrange(j, j + 2)[0] == '!');
                }
            }
        },
        crate::routing::ComparisonOperator::Equal => {
            assert(s[j] == '=' && s[j + 1] == '=');
            assert(!lit_at(s, j, "<="@)) by {
                if lit_at(s, j, "<="@) {
                    assert(s.subrange(j, j + 2)[0] == '<');
                }
            }
            assert(!lit_at(s, j, ">="@)) by {
                if lit_at(s, j, ">="@) {
                    assert(s.subrange(j, j + 2)[0] == '>');
                }
            }
            assert(s.subrange(j, j + 2) =~= "=="@);
            assert(lit_at(s, j, "=="@));
        },
        crate::routing::ComparisonOperator::NotEqual => {
            assert(s[j] == '!' && s[j + 1] == '=');
            assert(!lit_at(s, j, "<="@)) by {
                if lit_at(s, j, "<="@) {
                    assert(s.subrange(j, j + 2)[0] == '<');
                }
            }
            assert(!lit_at(s, j, ">="@)) by {
                if lit_at(s, j, ">="@) {
                    assert(s.subrange(j, j + 2)[0] == '>');
                }
            }
            assert(!lit_at(s, j, "=="@)) by {
                if lit_at(s, j, "=="@) {
                    assert(s.subrange(j, j + 2)[0] == '=');
                }
            }
            assert(s.subrange(j, j + 2) =~= "!="@);
            assert(lit_at(s, j, "!="@));
        },
        crate::routing::ComparisonOperator::LessThanOrEqual => {
            assert(s[j] == '<' && s[j + 1] == '=');
            assert(s.subrange(j, j + 2) =~= "<="@);
            assert(lit_at(s, j, "<="@));
        },
        crate::routing::ComparisonOperator::GreaterThanOrEqual => {
            assert(s[j] == '>' && s[j + 1] == '=');
            assert(!lit_at(s, j, "<="@)) by {
                if lit_at(s, j, "<="@) {
                    assert(s.subrange(j, j + 2)[0] == '<');
                }
            }
            assert(s.subrange(j, j + 2) =~= ">="@);
            assert(lit_at(s, j, ">="@));
        },
    }
}

/// Reading a single comparison over its printed text yields it back.
#[verifier::rlimit(100)]
#[verifier::spinoff_prover]
proof fn lemma_rt_comparison(s: Seq<char>, i: int, c: Condition)
    requires
        0 <= i <= s.len(),
        c is ComparisonPortVal || c is ComparisonValPort,
        ({
            let j = skip_ws(s, i);
            let e = j + pp_cond(c).len();
            &&& e <= s.len()
            &&& s.subrange(j, e) == pp_cond(c)
            &&& (e == s.len() || (!is_digit(s[e]) && s[e] != 'x'))
        }),
    ensures
        crate::dsl::sp_comparison(s, i) matches Ok(r) && r.0 == c && r.1 == skip_ws(s, i)
            + pp_cond(c).len(),
{
    reveal(crate::dsl::sp_comparison);
    crate::dsl::lemma_skip_ws_bounds(s, i);
    let j = skip_ws(s, i);
    let pp = pp_cond(c);
    let e = j + pp.len();
    reveal_strlit("INPUT");
    reveal_strlit("INPUT ");
    reveal_strlit(" ");
    reveal_strlit(" INPUT");
    reveal_strlit("<");
    reveal_strlit(">");
    reveal_strlit("==");
    reveal_strlit("!=");
    reveal_strlit("<=");
    reveal_strlit(">=");
    assert(1 <= crate::pretty::pp_cmp(c->ComparisonPortVal_1).len() <= 2 || !(c
        is ComparisonPortVal));
    match c {
        Condition::ComparisonPortVal(val, op) => {
            let ol = crate::pretty::pp_cmp(op).len() as int;
            let dl = dec_str(val as nat).len() as int;
            assert(1 <= ol <= 2);
            lemma_dec_str_digits(val as nat);
            lemma_text_subrange(s, j, pp, 0, 5);
            assert(pp.subrange(0, 5) =~= "INPUT"@);
            assert(lit_at(s, j, "INPUT"@));
            lemma_text_index(s, j, pp, 5);
            assert(s[j + 5] == ' ');
            lemma_text_index(s, j, pp, 6);
            assert(s[j + 6] == crate::pretty::pp_cmp(op)[0]);
            assert(!is_ws(s[j + 6])) by {
                reveal_strlit("<");
                reveal_strlit(">");
                reveal_strlit("==");
                reveal_strlit("!=");
                reveal_strlit("<=");
                reveal_strlit(">=");
            }
            lemma_skip_ws_run(s, j + 5, j + 6);
            lemma_text_subrange(s, j, pp, 6, 6 + ol);
            assert(pp.subrange(6, 6 + ol) =~= crate::pretty::pp_cmp(op));
            lemma_text_index(s, j, pp, 6 + ol);
            assert(s[j + 6 + ol] == ' ');
            lemma_rt_cmp_op(s, j + 5, op);
            lemma_text_index(s, j, pp, 7 + ol);
            assert(s[j + 7 + ol] == dec_str(val as nat)[0]);
            assert(!is_ws(s[j + 7 + ol]));
            lemma_skip_ws_run(s, j + 6 + ol, j + 7 + ol);
            lemma_text_subrange(s, j, pp, 7 + ol, 7 + ol + dl);
            assert(pp.subrange(7 + ol, 7 + ol + dl) =~= dec_str(val as nat));
            lemma_rt_num(s, j + 6 + ol, val);
        },
        Condition::ComparisonValPort(val, op) => {
            let ol = crate::pretty::pp_cmp(op).len() as int;
            let dl = dec_str(val as nat).len() as int;
            assert(1 <= ol <= 2);
            lemma_dec_str_digits(val as nat);
            lemma_text_index(s, j, pp, 0);
            assert(s[j] == dec_str(val as nat)[0]);
            assert(!lit_at(s, j, "INPUT"@)) by {
                if lit_at(s, j, "INPUT"@) {
                    assert(s.subrange(j, j + 5)[0] == 'I');
                }
            }
            lemma_skip_ws_run(s, j, j);
            lemma_text_subrange(s, j, pp, 0, dl);
            assert(pp.subrange(0, dl) =~= dec_str(val as nat));
            lemma_text_index(s, j, pp, dl);
            assert(s[j + dl] == ' ');
            lemma_rt_num(s, j, val);
            lemma_text_index(s, j, pp, dl + 1);
            assert(s[j + dl + 1] == crate::pretty::pp_cmp(op)[0]);
            assert(!is_ws(s[j + dl + 1])) by {
                reveal_strlit("<");
                reveal_strlit(">");
                reveal_strlit("==");
                reveal_strlit("!=");
                reveal_strlit("<=");
                reveal_strlit(">=");
            }
            lemma_skip_ws_run(s, j + dl, j + dl + 1);
            lemma_text_subrange(s, j, pp, dl + 1, dl + 1 + ol);
            assert(pp.subrange(dl + 1, dl + 1 + ol) =~= crate::pretty::pp_cmp(op));
            lemma_text_index(s, j, pp, dl + 1 + ol);
            assert(s[j + dl + 1 + ol] == ' ');
            lemma_rt_cmp_op(s, j + dl, op);
            lemma_text_index(s, j, pp, dl + 2 + ol);
            assert(s[j + dl + 2 + ol] == 'I');
            lemma_skip_ws_run(s, j + dl + 1 + ol, j + dl + 2 + ol);
            lemma_text_subrange(s, j, pp, dl + 2 + ol, pp.len() as int);
            assert(pp.subrange(dl + 2 + ol, pp.len() as int) =~= "INPUT"@);
            lemma_rt_lit(s, j + dl + 1 + ol, "INPUT"@);
        },
        _ => {},
    }
}

/// Reading a condition over its printed, fully parenthesized text yields
/// the condition back.
pub proof fn lemma_rt_cond(s: Seq<char>, i: int, c: Condition)
    requires
        0 <= i <= s.len(),
        ({
            let j = skip_ws(s, i);
            let e = j + pp_cond(c).len();
            &&& e <= s.len()
            &&& s.subrange(j, e) == pp_cond(c)
            &&& (e == s.len() || (!is_digit(s[e]) && s[e] != 'x'))
        }),
    ensures
        crate::dsl::sp_cond(s, i) matches Ok(r) && r.0 == c && r.1 == skip_ws(s, i) + pp_cond(
            c,
        ).len(),
    decreases c, 1int,
{
    reveal(crate::dsl::sp_cond);
    reveal(crate::dsl::sp_cond_binary);
    crate::dsl::lemma_skip_ws_bounds(s, i);
    let j = skip_ws(s, i);
    let pp = pp_cond(c);
    lemma_pp_cond_first(c);
    lemma_text_index(s, j, pp, 0);
    assert(s[j] == pp[0]);
    match c {
        Condition::ComparisonPortVal(_, _) => {
            assert(s[j] != '!' && s[j] != '(');
            lemma_rt_comparison(s, i, c);
        },
        Condition::ComparisonValPort(_, _) => {
            assert(s[j] != '!' && s[j] != '(');
            lemma_rt_comparison(s, i, c);
        },
        Condition::Not(_) => {
            lemma_rt_cond_not(s, i, c);
        },
        Condition::And(_, _) => {
            lemma_rt_cond_binary(s, i, c);
        },
        Condition::Or(_, _) => {
            lemma_rt_cond_binary(s, i, c);
        },
    }
}

/// The negation case of the condition round trip.
#[verifier::rlimit(100)]
#[verifier::spinoff_prover]
proof fn lemma_rt_cond_not(s: Seq<char>, i: int, c: Condition)
    requires
        0 <= i <= s.len(),
        c is Not,
        ({
            let j = skip_ws(s, i);
            let e = j + pp_cond(c).len();
            &&& e <= s.len()
            &&& s.subrange(j, e) == pp_cond(c)
            &&& (e == s.len() || (!is_digit(s[e]) && s[e] != 'x'))
        }),
    ensures
        crate::dsl::sp_cond(s, i) matches Ok(r) && r.0 == c && r.1 == skip_ws(s, i) + pp_cond(
            c,
        ).len(),
    decreases c, 0int,
{
    reveal(crate::dsl::sp_cond);
    reveal(crate::dsl::sp_cond_binary);
    crate::dsl::lemma_skip_ws_bounds(s, i);
    let j = skip_ws(s, i);
    let pp = pp_cond(c);
    let c1 = *c->Not_0;
    let l1 = pp_cond(c1).len() as int;
    reveal_strlit("!(");
    reveal_strlit("(");
    reveal_strlit(")");
    assert(pp.len() == 3 + l1);
    lemma_pp_cond_first(c1);
    lemma_text_index(s, j, pp, 0);
    assert(s[j] == '!');
    lemma_text_index(s, j, pp, 1);
    assert(s[j + 1] == '(');
    lemma_skip_ws_run(s, j + 1, j + 1);
    lemma_text_subrange(s, j, pp, 1, 2);
    assert(pp.subrange(1, 2) =~= "("@);
    lemma_rt_lit(s, j + 1, "("@);
    lemma_text_index(s, j, pp, 2);
    assert(s[j + 2] == pp_cond(c1)[0]);
    lemma_skip_ws_run(s, j + 2, j + 2);
    lemma_text_subrange(s, j, pp, 2, 2 + l1);
    assert(pp.subrange(2, 2 + l1) =~= pp_cond(c1));
    lemma_text_index(s, j, pp, 2 + l1);
    assert(s[j + 2 + l1] == ')');
    lemma_rt_cond(s, j + 2, c1);
    lemma_skip_ws_run(s, j + 2 + l1, j + 2 + l1);
    lemma_text_subrange(s, j, pp, 2 + l1, 3 + l1);
    assert(pp.subrange(2 + l1, 3 + l1) =~= ")"@);
    lemma_rt_lit(s, j + 2 + l1, ")"@);
    assert(Condition::Not(Box::new(c1)) == c);
}

/// The conjunction and disjunction cases of the condition round trip.
#[verifier::rlimit(100)]
#[verifier::spinoff_prover]
proof fn lemma_rt_cond_binary(s: Seq<char>, i: int, c: Condition)
    requires
        0 <= i <= s.len(),
        c is And || c is Or,
        ({
            let j = skip_ws(s, i);
            let e = j + pp_cond(c).len();
            &&& e <= s.len()
            &&& s.subrange(j, e) == pp_cond(c)
            &&& (e == s.len() || (!is_digit(s[e]) && s[e] != 'x'))
        }),
    ensures
        crate::dsl::sp_cond(s, i) matches Ok(r) && r.0 == c && r.1 == skip_ws(s, i) + pp_cond(
            c,
        ).len(),
    decreases c, 0int,
{
    reveal(crate::dsl::sp_cond);
    reveal(crate::dsl::sp_cond_binary);
    crate::dsl::lemma_skip_ws_bounds(s, i);
    let j = skip_ws(s, i);
    let pp = pp_cond(c);
    let c1 = if c is And {
        *c->And_0
    } else {
        *c->Or_0
    };
    let c2 = if c is And {
        *c->And_1
    } else {
        *c->Or_1
    };
    let mid: Seq<char> = if c is And {
        " && "@
    } else {
        " || "@
    };
    let l1 = pp_cond(c1).len() as int;
    let l2 = pp_cond(c2).len() as int;
    reveal_strlit("(");
    reveal_strlit(")");
    reveal_strlit(" && ");
    reveal_strlit(" || ");
    reveal_strlit("&&");
    reveal_strlit("||");
    assert(pp =~= "("@ + pp_cond(c1) + mid + pp_cond(c2) + ")"@);
    assert(pp.len() == 6 + l1 + l2);
    lemma_pp_cond_first(c1);
    lemma_pp_cond_first(c2);
    lemma_text_index(s, j, pp, 0);
    assert(s[j] == '(' && s[j] != '!');
    assert(crate::dsl::sp_cond(s, i) == crate::dsl::sp_cond_binary(s, i, j));
    lemma_text_index(s, j, pp, 1);
    assert(s[j + 1] == pp_cond(c1)[0]);
    lemma_skip_ws_run(s, j + 1, j + 1);
    lemma_text_subrange(s, j, pp, 1, 1 + l1);
    assert(pp.subrange(1, 1 + l1) =~= pp_cond(c1));
    lemma_text_index(s, j, pp, 1 + l1);
    assert(s[j + 1 + l1] == ' ');
    lemma_rt_cond(s, j + 1, c1);
    let k = j + 2 + l1;
    lemma_text_index(s, j, pp, 2 + l1);
    lemma_text_index(s, j, pp, 3 + l1);
    lemma_text_index(s, j, pp, 4 + l1);
    lemma_skip_ws_run(s, j + 1 + l1, k);
    if c is And {
        assert(s[k] == '&' && s[k + 1] == '&' && s[k + 2] == ' ');
        assert(s.subrange(k, k + 2) =~= "&&"@) by {
            lemma_text_subrange(s, j, pp, 2 + l1, 4 + l1);
            assert(pp.subrange(2 + l1, 4 + l1) =~= "&&"@);
        }
        assert(lit_at(s, k, "&&"@));
        assert(!lit_at(s, k, "||"@)) by {
            if lit_at(s, k, "||"@) {
                assert(s.subrange(k, k + 2)[0] == '|');
            }
        }
    } else {
        assert(s[k] == '|' && s[k + 1] == '|' && s[k + 2] == ' ');
        assert(s.subrange(k, k + 2) =~= "||"@) by {
            lemma_text_subrange(s, j, pp, 2 + l1, 4 + l1);
            assert(pp.subrange(2 + l1, 4 + l1) =~= "||"@);
        }
        assert(lit_at(s, k, "||"@));
        assert(!lit_at(s, k, "&&"@)) by {
            if lit_at(s, k, "&&"@) {
                assert(s.subrange(k, k + 2)[0] == '&');
            }
        }
    }
    lemma_text_index(s, j, pp, 5 + l1);
    assert(s[j + 5 + l1] == pp_cond(c2)[0]);
    lemma_skip_ws_run(s, k + 2, j + 5 + l1);
    lemma_text_subrange(s, j, pp, 5 + l1, 5 + l1 + l2);
    assert(pp.subrange(5 + l1, 5 + l1 + l2) =~= pp_cond(c2));
    lemma_text_index(s, j, pp, 5 + l1 + l2);
    assert(s[j + 5 + l1 + l2] == ')');
    lemma_rt_cond(s, k + 2, c2);
    lemma_skip_ws_run(s, j + 5 + l1 + l2, j + 5 + l1 + l2);
    lemma_text_subrange(s, j, pp, 5 + l1 + l2, 6 + l1 + l2);
    assert(pp.subrange(5 + l1 + l2, 6 + l1 + l2) =~= ")"@);
    lemma_rt_lit(s, j + 5 + l1 + l2, ")"@);
    if c is And {
        assert(Condition::And(Box::new(c1), Box::new(c2)) == c);
    } else {
        assert(Condition::Or(Box::new(c1), Box::new(c2)) == c);
    }
}

/// The placement of the first `, terminal` item inside the printed tail of
/// a terminal list.
#[verifier::rlimit(100)]
#[verifier::spinoff_prover]
proof fn lemma_terminals_tail_site(s: Seq<char>, q: int, ts: Seq<TerminalRoutingProgram>, level: nat)
    requires
        0 <= q,
        ts.len() > 0,
        ({
            let tt = crate::pretty::pp_terminals_rest(ts, crate::pretty::indent(level))
                + crate::pretty::indent(level) + "]"@;
            &&& q + tt.len() <= s.len()
            &&& s.subrange(q, q + tt.len()) == tt
        }),
    ensures
        ({
            let li: int = 4 * (level as int);
            let t0 = ts.first();
            let tl = pp_terminal(t0).len() as int;
            let rest = ts.drop_first();
            let tt = crate::pretty::pp_terminals_rest(ts, crate::pretty::indent(level))
                + crate::pretty::indent(level) + "]"@;
            let tt2 = crate::pretty::pp_terminals_rest(rest, crate::pretty::indent(level))
                + crate::pretty::indent(level) + "]"@;
            &&& s[q] == ','
            &&& s.subrange(q, q + 1) == ","@
            &&& skip_ws(s, q + 1) == q + 1 + li
            &&& s.subrange(q + 1 + li, q + 1 + li + tl) == pp_terminal(t0)
            &&& !is_digit(s[q + 1 + li + tl])
            &&& s[q + 1 + li + tl] != 'x'
            &&& skip_ws(s, q + 1 + li + tl) == if rest.len() > 0 {
                q + 2 + li + tl
            } else {
                q + 2 + li + tl + li
            }
            &&& s[skip_ws(s, q + 1 + li + tl)] == if rest.len() > 0 {
                ','
            } else {
                ']'
            }
            &&& s.subrange(q + 2 + li + tl, q + 2 + li + tl + tt2.len()) == tt2
            &&& tt.len() == 2 + li + tl + tt2.len()
        }),
{
    reveal_strlit("]");
    reveal_strlit(",");
    reveal_strlit("\n");
    let li: int = 4 * (level as int);
    let ind = crate::pretty::indent(level);
    let tt = crate::pretty::pp_terminals_rest(ts, ind) + ind + "]"@;
    let t0 = ts.first();
    let tl = pp_terminal(t0).len() as int;
    let rest = ts.drop_first();
    let tt2 = crate::pretty::pp_terminals_rest(rest, ind) + ind + "]"@;
    lemma_pp_terminal_first(t0);
    assert(crate::pretty::pp_terminals_rest(ts, ind) == ","@ + ind + pp_terminal(t0) + "\n"@
        + crate::pretty::pp_terminals_rest(rest, ind));
    assert(tt =~= ","@ + ind + pp_terminal(t0) + "\n"@ + tt2);
    lemma_text_index(s, q, tt, 0);
    assert(s[q] == ',');
    lemma_text_subrange(s, q, tt, 0, 1);
    assert(tt.subrange(0, 1) =~= ","@);
    assert forall|k: int| q + 1 <= k < q + 1 + li implies is_ws(#[trigger] s[k]) by {
        lemma_text_index(s, q, tt, k - q);
    }
    lemma_text_index(s, q, tt, 1 + li);
    assert(s[q + 1 + li] == pp_terminal(t0)[0]);
    lemma_skip_ws_run(s, q + 1, q + 1 + li);
    lemma_text_subrange(s, q, tt, 1 + li, 1 + li + tl);
    assert(tt.subrange(1 + li, 1 + li + tl) =~= pp_terminal(t0));
    lemma_text_index(s, q, tt, 1 + li + tl);
    assert(s[q + 1 + li + tl] == '\n');
    let p1 = q + 2 + li + tl;
    lemma_text_subrange(s, q, tt, 2 + li + tl, tt.len() as int);
    assert(tt.subrange(2 + li + tl, tt.len() as int) =~= tt2);
    if rest.len() > 0 {
        lemma_text_index(s, p1, tt2, 0);
        assert(tt2[0] == ',') by {
            assert(crate::pretty::pp_terminals_rest(rest, ind) == ","@ + ind + pp_terminal(
                rest.first(),
            ) + "\n"@ + crate::pretty::pp_terminals_rest(rest.drop_first(), ind));
        }
        assert(s[p1] == ',');
        lemma_skip_ws_run(s, q + 1 + li + tl, p1);
    } else {
        assert(crate::pretty::pp_terminals_rest(rest, ind) =~= Seq::<char>::empty());
        assert(tt2 =~= ind + "]"@);
        assert forall|k: int| q + 1 + li + tl <= k < p1 + li implies is_ws(#[trigger] s[k]) by {
            if k >= p1 {
                lemma_text_index(s, p1, tt2, k - p1);
            }
        }
        lemma_text_index(s, p1, tt2, li);
        assert(s[p1 + li] == ']');
        lemma_skip_ws_run(s, q + 1 + li + tl, p1 + li);
    }
}

/// Reading the tail of a bracketed terminal list — the `, terminal` items
/// and the closing bracket — yields the remaining terminals back.
#[verifier::rlimit(100)]
#[verifier::spinoff_prover]
proof fn lemma_rt_terminals_tail(
    s: Seq<char>,
    i: int,
    q: int,
    ts: Seq<TerminalRoutingProgram>,
    level: nat,
)
    requires
        0 <= i <= s.len(),
        0 <= q,
        i <= q + 4 * (level as int),
        ({
            let tt = crate::pretty::pp_terminals_rest(ts, crate::pretty::indent(level)) + crate::pretty::indent(
                level,
            ) + "]"@;
            &&& q + tt.len() <= s.len()
            &&& s.subrange(q, q + tt.len()) == tt
        }),
        skip_ws(s, i) == if ts.len() > 0 {
            q
        } else {
            q + 4 * (level as int)
        },
    ensures
        ({
            let tt = crate::pretty::pp_terminals_rest(ts, crate::pretty::indent(level)) + crate::pretty::indent(
                level,
            ) + "]"@;
            crate::dsl::sp_terminals_tail(s, i) matches Ok(r) && r.0 == ts && r.1 == q + tt.len()
        }),
    decreases ts.len(),
{
    reveal(crate::dsl::sp_terminals_tail);
    crate::dsl::lemma_skip_ws_bounds(s, i);
    reveal_strlit("]");
    reveal_strlit(",");
    let li: int = 4 * (level as int);
    let ind = crate::pretty::indent(level);
    let tt = crate::pretty::pp_terminals_rest(ts, ind) + ind + "]"@;
    if ts.len() == 0 {
        assert(crate::pretty::pp_terminals_rest(ts, ind) =~= Seq::<char>::empty());
        assert(tt =~= ind + "]"@);
        lemma_text_index(s, q, tt, li);
        assert(s[q + li] == ']');
        lemma_text_subrange(s, q, tt, li, li + 1);
        assert(tt.subrange(li, li + 1) =~= "]"@);
        lemma_rt_lit(s, i, "]"@);
    } else {
        let t0 = ts.first();
        let tl = pp_terminal(t0).len() as int;
        let rest = ts.drop_first();
        let tt2 = crate::pretty::pp_terminals_rest(rest, ind) + ind + "]"@;
        lemma_terminals_tail_site(s, q, ts, level);
        assert(crate::dsl::sp_lit(s, i, "]"@) is Err) by {
            if crate::dsl::sp_lit(s, i, "]"@) is Ok {
                assert(lit_at(s, q, "]"@));
                assert(s.subrange(q, q + 1)[0] == ']');
            }
        }
        lemma_rt_lit(s, i, ","@);
        lemma_rt_terminal(s, q + 1, t0);
        lemma_rt_terminals_tail(s, q + 1 + li + tl, q + 2 + li + tl, rest, level);
        assert(seq![t0] + rest =~= ts);
    }
}

/// Reading a sequence program over its printed text yields it back.
#[verifier::rlimit(100)]
#[verifier::spinoff_prover]
pub proof fn lemma_rt_seq_prog(
    s: Seq<char>,
    i: int,
    p: crate::routing::SequenceRoutingProg,
    level: nat,
)
    requires
        0 <= i <= s.len(),
        crate::routing::seq_prog_wf(p),
        ({
            let j = skip_ws(s, i);
            let e = j + crate::pretty::pp_seq_prog(p, level).len();
            &&& e <= s.len()
            &&& s.subrange(j, e) == crate::pretty::pp_seq_prog(p, level)
            &&& (e == s.len() || (!is_digit(s[e]) && s[e] != 'x'))
            &&& (skip_ws(s, e) == s.len() || s[skip_ws(s, e)] != '-')
        }),
    ensures
        crate::dsl::sp_seq_prog(s, i) matches Ok(r) && r.0 == crate::dsl::seq_prog_view(p) && r.1
            == skip_ws(s, i) + crate::pretty::pp_seq_prog(p, level).len(),
{
    reveal(crate::dsl::sp_seq_prog);
    crate::dsl::lemma_skip_ws_bounds(s, i);
    let j = skip_ws(s, i);
    let pp = crate::pretty::pp_seq_prog(p, level);
    let ind = crate::pretty::indent(level);
    reveal_strlit("[");
    reveal_strlit("]");
    reveal_strlit(",");
    reveal_strlit("\n");
    match p {
        crate::routing::SequenceRoutingProg::Prog(t) => {
            lemma_pp_terminal_first(t);
            lemma_text_index(s, j, pp, 0);
            assert(s[j] != '[');
            lemma_skip_ws_run(s, j, j);
            lemma_rt_terminal(s, j, t);
            lemma_rt_terminal(s, i, t);
        },
        crate::routing::SequenceRoutingProg::Sequence(ts) => {
            let t0 = ts@[0];
            let tl = pp_terminal(t0).len() as int;
            let rest = ts@.skip(1);
            let tt2 = crate::pretty::pp_terminals_rest(rest, ind) + ind + "]"@;
            lemma_pp_terminal_first(t0);
            assert(pp =~= "["@ + ind + pp_terminal(t0) + tt2) by {
                assert(pp == "["@ + ind + pp_terminal(ts@[0]) + crate::pretty::pp_terminals_rest(
                    ts@.skip(1),
                    ind,
                ) + ind + "]"@);
            }
            lemma_text_index(s, j, pp, 0);
            assert(s[j] == '[');
            assert forall|k: int| j + 1 <= k < j + 1 + 4 * (level as int) implies is_ws(
                #[trigger] s[k],
            ) by {
                lemma_text_index(s, j, pp, k - j);
            }
            lemma_text_index(s, j, pp, 1 + 4 * (level as int));
            assert(s[j + 1 + 4 * (level as int)] == pp_terminal(t0)[0]);
            lemma_skip_ws_run(s, j + 1, j + 1 + 4 * (level as int));
            lemma_text_subrange(s, j, pp, 1 + 4 * (level as int), 1 + 4 * (level as int) + tl);
            assert(pp.subrange(1 + 4 * (level as int), 1 + 4 * (level as int) + tl) =~= pp_terminal(t0));
            let p1 = j + 1 + 4 * (level as int) + tl;
            lemma_text_subrange(s, j, pp, 1 + 4 * (level as int) + tl, pp.len() as int);
            assert(pp.subrange(1 + 4 * (level as int) + tl, pp.len() as int) =~= tt2);
            if rest.len() > 0 {
                lemma_text_index(s, p1, tt2, 0);
                assert(tt2[0] == ',') by {
                    assert(crate::pretty::pp_terminals_rest(rest, ind) == ","@ + ind
                        + pp_terminal(rest.first()) + "\n"@ + crate::pretty::pp_terminals_rest(
                        rest.drop_first(),
                        ind,
                    ));
                }
                assert(s[p1] == ',');
                assert(!is_digit(s[p1]) && s[p1] != 'x');
                lemma_skip_ws_run(s, p1, p1);
            } else {
                assert(crate::pretty::pp_terminals_rest(rest, ind) =~= Seq::<char>::empty());
                assert(tt2 =~= ind + "]"@);
                reveal_strlit("]");
                assert forall|k: int| p1 <= k < p1 + 4 * (level as int) implies is_ws(#[trigger] s[k]) by {
                    lemma_text_index(s, p1, tt2, k - p1);
                }
                lemma_text_index(s, p1, tt2, 4 * (level as int));
                assert(s[p1 + 4 * (level as int)] == ']');
                lemma_skip_ws_run(s, p1, p1 + 4 * (level as int));
                if 4 * (level as int) > 0 {
                    lemma_text_index(s, p1, tt2, 0);
                    assert(is_ws(s[p1]) && !is_digit(s[p1]) && s[p1] != 'x');
                } else {
                    assert(s[p1] == ']');
                    assert(!is_digit(s[p1]) && s[p1] != 'x');
                }
            }
            lemma_rt_terminal(s, j + 1, t0);
            lemma_rt_terminals_tail(s, p1, p1, rest, level);
            assert(crate::dsl::seq_prog_view(p) == crate::dsl::SeqProgModel::Sequence(ts@));
            assert(seq![t0] + rest =~= ts@);
        },
    }
}

/// The placement of the first `, range` item inside the printed tail of a
/// range list.
#[verifier::rlimit(100)]
#[verifier::spinoff_prover]
proof fn lemma_ranges_tail_site(s: Seq<char>, q: int, ms: Seq<MemoryLayout>, level: nat)
    requires
        0 <= q,
        ms.len() > 0,
        ({
            let tt = crate::pretty::pp_ranges_rest(ms, crate::pretty::indent(level))
                + crate::pretty::indent(level) + "\n]\n"@;
            &&& q + tt.len() <= s.len()
            &&& s.subrange(q, q + tt.len()) == tt
        }),
    ensures
        ({
            let li: int = 4 * (level as int);
            let m0 = ms.first();
            let rl = pp_range(m0).len() as int;
            let rest = ms.drop_first();
            let tt = crate::pretty::pp_ranges_rest(ms, crate::pretty::indent(level))
                + crate::pretty::indent(level) + "\n]\n"@;
            let tt2 = crate::pretty::pp_ranges_rest(rest, crate::pretty::indent(level))
                + crate::pretty::indent(level) + "\n]\n"@;
            &&& s[q] == ','
            &&& s.subrange(q, q + 1) == ","@
            &&& skip_ws(s, q + 1) == q + 3 + li
            &&& s.subrange(q + 3 + li, q + 3 + li + rl) == pp_range(m0)
            &&& skip_ws(s, q + 3 + li + rl) == if rest.len() > 0 {
                q + 3 + li + rl
            } else {
                q + 3 + li + rl + li + 1
            }
            &&& s[skip_ws(s, q + 3 + li + rl)] == if rest.len() > 0 {
                ','
            } else {
                ']'
            }
            &&& s.subrange(q + 3 + li + rl, q + 3 + li + rl + tt2.len()) == tt2
            &&& tt.len() == 3 + li + rl + tt2.len()
        }),
{
    reveal_strlit("]");
    reveal_strlit(",");
    reveal_strlit(",\n");
    reveal_strlit("\t");
    reveal_strlit("\n]\n");
    let li: int = 4 * (level as int);
    let ind = crate::pretty::indent(level);
    let tt = crate::pretty::pp_ranges_rest(ms, ind) + ind + "\n]\n"@;
    let m0 = ms.first();
    let rl = pp_range(m0).len() as int;
    let rest = ms.drop_first();
    let tt2 = crate::pretty::pp_ranges_rest(rest, ind) + ind + "\n]\n"@;
    assert(crate::pretty::pp_ranges_rest(ms, ind) == ",\n"@ + ind + "\t"@ + pp_range(m0)
        + crate::pretty::pp_ranges_rest(rest, ind));
    assert(tt =~= ",\n"@ + ind + "\t"@ + pp_range(m0) + tt2);
    lemma_text_index(s, q, tt, 0);
    assert(s[q] == ',');
    lemma_text_subrange(s, q, tt, 0, 1);
    assert(tt.subrange(0, 1) =~= ","@);
    assert forall|k: int| q + 1 <= k < q + 3 + li implies is_ws(#[trigger] s[k]) by {
        lemma_text_index(s, q, tt, k - q);
    }
    lemma_text_index(s, q, tt, 3 + li);
    assert(s[q + 3 + li] == pp_range(m0)[0]);
    assert(pp_range(m0)[0] == '[') by {
        reveal_strlit("[");
        assert(pp_range(m0)[0] == "["@[0]);
    }
    lemma_skip_ws_run(s, q + 1, q + 3 + li);
    lemma_text_subrange(s, q, tt, 3 + li, 3 + li + rl);
    assert(tt.subrange(3 + li, 3 + li + rl) =~= pp_range(m0));
    let p1 = q + 3 + li + rl;
    lemma_text_subrange(s, q, tt, 3 + li + rl, tt.len() as int);
    assert(tt.subrange(3 + li + rl, tt.len() as int) =~= tt2);
    if rest.len() > 0 {
        lemma_text_index(s, p1, tt2, 0);
        assert(tt2[0] == ',') by {
            assert(crate::pretty::pp_ranges_rest(rest, ind) == ",\n"@ + ind + "\t"@ + pp_range(
                rest.first(),
            ) + crate::pretty::pp_ranges_rest(rest.drop_first(), ind));
        }
        assert(s[p1] == ',');
        lemma_skip_ws_run(s, p1, p1);
    } else {
        assert(crate::pretty::pp_ranges_rest(rest, ind) =~= Seq::<char>::empty());
        assert(tt2 =~= ind + "\n]\n"@);
        assert forall|k: int| p1 <= k < p1 + li + 1 implies is_ws(#[trigger] s[k]) by {
            lemma_text_index(s, p1, tt2, k - p1);
        }
        lemma_text_index(s, p1, tt2, li + 1);
        assert(s[p1 + li + 1] == ']');
        lemma_skip_ws_run(s, p1, p1 + li + 1);
    }
}

/// Reading the tail of a bracketed range list — the `, range` items and the
/// closing bracket — yields the remaining ranges back; the final newline is
/// left unread.
#[verifier::rlimit(100)]
#[verifier::spinoff_prover]
proof fn lemma_rt_ranges_tail(s: Seq<char>, i: int, q: int, ms: Seq<MemoryLayout>, level: nat)
    requires
        0 <= i <= s.len(),
        0 <= q,
        i <= q + 4 * (level as int) + 1,
        forall|k: int| 0 <= k < ms.len() ==> layout_wf(#[trigger] ms[k]),
        ({
            let tt = crate::pretty::pp_ranges_rest(ms, crate::pretty::indent(level))
                + crate::pretty::indent(level) + "\n]\n"@;
            &&& q + tt.len() <= s.len()
            &&& s.subrange(q, q + tt.len()) == tt
        }),
        skip_ws(s, i) == if ms.len() > 0 {
            q
        } else {
            q + 4 * (level as int) + 1
        },
    ensures
        ({
            let tt = crate::pretty::pp_ranges_rest(ms, crate::pretty::indent(level))
                + crate::pretty::indent(level) + "\n]\n"@;
            crate::dsl::sp_ranges_tail(s, i) matches Ok(r) && r.0 == ms && r.1 == q + tt.len()
                - 1
        }),
    decreases ms.len(),
{
    reveal(crate::dsl::sp_ranges_tail);
    crate::dsl::lemma_skip_ws_bounds(s, i);
    reveal_strlit("]");
    reveal_strlit(",");
    reveal_strlit("\n]\n");
    let li: int = 4 * (level as int);
    let ind = crate::pretty::indent(level);
    let tt = crate::pretty::pp_ranges_rest(ms, ind) + ind + "\n]\n"@;
    if ms.len() == 0 {
        assert(crate::pretty::pp_ranges_rest(ms, ind) =~= Seq::<char>::empty());
        assert(tt =~= ind + "\n]\n"@);
        lemma_text_index(s, q, tt, li + 1);
        assert(s[q + li + 1] == ']');
        lemma_text_subrange(s, q, tt, li + 1, li + 2);
        assert(tt.subrange(li + 1, li + 2) =~= "]"@);
        lemma_rt_lit(s, i, "]"@);
    } else {
        let m0 = ms.first();
        let rl = pp_range(m0).len() as int;
        let rest = ms.drop_first();
        lemma_ranges_tail_site(s, q, ms, level);
        assert(crate::dsl::sp_lit(s, i, "]"@) is Err) by {
            if crate::dsl::sp_lit(s, i, "]"@) is Ok {
                assert(lit_at(s, q, "]"@));
                assert(s.subrange(q, q + 1)[0] == ']');
            }
        }
        lemma_rt_lit(s, i, ","@);
        assert(layout_wf(m0));
        lemma_rt_range(s, q + 1, m0);
        assert(forall|k: int|
            0 <= k < rest.len() ==> layout_wf(#[trigger] rest[k])) by {
            assert(forall|k: int| 0 <= k < rest.len() ==> rest[k] == #[trigger] ms[k + 1]);
        }
        lemma_rt_ranges_tail(s, q + 3 + li + rl, q + 3 + li + rl, rest, level);
        assert(seq![m0] + rest =~= ms);
    }
}

/// Reading a top-level layout over its printed text yields its ranges back;
/// a bracketed list leaves its final newline unread.
#[verifier::rlimit(100)]
#[verifier::spinoff_prover]
pub proof fn lemma_rt_layout(
    s: Seq<char>,
    i: int,
    q: int,
    l: crate::layout::TopLevelMemoryLayout,
    level: nat,
)
    requires
        0 <= i <= s.len(),
        0 <= q,
        l.mems@.len() >= 1,
        crate::layout::tlml_ranges_wf(l.mems@),
        ({
            let pp = crate::pretty::pp_layout(l, level as nat);
            &&& q + pp.len() <= s.len()
            &&& s.subrange(q, q + pp.len()) == pp
        }),
        skip_ws(s, i) == q + if l.mems@.len() >= 2 {
            4 * (level as int)
        } else {
            0
        },
        i <= q + 4 * (level as int),
    ensures
        crate::dsl::sp_layout(s, i) matches Ok(r) && r.0 == l.mems@ && r.1 == q
            + crate::pretty::pp_layout(l, level as nat).len() - if l.mems@.len() >= 2 {
            1int
        } else {
            0int
        },
{
    reveal(crate::dsl::sp_layout);
    crate::dsl::lemma_skip_ws_bounds(s, i);
    let li: int = 4 * (level as int);
    let ind = crate::pretty::indent(level);
    let pp = crate::pretty::pp_layout(l, level as nat);
    reveal_strlit("[");
    reveal_strlit("[\n");
    reveal_strlit("\t");
    if l.mems@.len() == 1 {
        let m0 = l.mems@[0];
        assert(pp == pp_range(m0));
        lemma_dec_str_digits(m0->start as nat);
        lemma_text_index(s, q, pp, 0);
        assert(s[q] == '[') by {
            assert(pp_range(m0)[0] == "["@[0]);
        }
        lemma_text_index(s, q, pp, 1);
        assert(s[q + 1] == dec_str(m0->start as nat)[0]) by {
            assert(pp_range(m0)[1] == dec_str(m0->start as nat)[0]);
        }
        assert(is_digit(s[q + 1]) && !is_ws(s[q + 1]) && s[q + 1] != '[');
        lemma_skip_ws_run(s, q + 1, q + 1);
        lemma_skip_ws_run(s, q, q);
        lemma_rt_range(s, q, m0);
        lemma_rt_range(s, i, m0);
        assert(seq![m0] =~= l.mems@);
    } else {
        let m0 = l.mems@[0];
        let rl = pp_range(m0).len() as int;
        let rest = l.mems@.skip(1);
        let tt2 = crate::pretty::pp_ranges_rest(rest, ind) + ind + "\n]\n"@;
        assert(pp =~= ind + "[\n"@ + ind + "\t"@ + pp_range(m0) + tt2) by {
            assert(pp == ind + "[\n"@ + ind + "\t"@ + pp_range(m0)
                + crate::pretty::pp_ranges_rest(l.mems@.skip(1), ind) + ind + "\n]\n"@);
        }
        lemma_dec_str_digits(m0->start as nat);
        let j = q + li;
        lemma_text_index(s, q, pp, li);
        assert(s[j] == '[');
        assert forall|k: int| j + 1 <= k < q + 2 * li + 3 implies is_ws(#[trigger] s[k]) by {
            lemma_text_index(s, q, pp, k - q);
        }
        lemma_text_index(s, q, pp, 2 * li + 3);
        assert(s[q + 2 * li + 3] == pp_range(m0)[0]);
        assert(pp_range(m0)[0] == '[') by {
            assert(pp_range(m0)[0] == "["@[0]);
        }
        lemma_skip_ws_run(s, j + 1, q + 2 * li + 3);
        let k2 = q + 2 * li + 3;
        lemma_text_index(s, q, pp, 2 * li + 4);
        assert(s[k2 + 1] == dec_str(m0->start as nat)[0]) by {
            assert(pp_range(m0)[1] == dec_str(m0->start as nat)[0]);
        }
        lemma_skip_ws_run(s, k2, k2);
        lemma_text_subrange(s, q, pp, 2 * li + 3, 2 * li + 3 + rl);
        assert(pp.subrange(2 * li + 3, 2 * li + 3 + rl) =~= pp_range(m0));
        assert(layout_wf(m0));
        lemma_rt_range(s, k2, m0);
        let p1 = k2 + rl;
        lemma_text_subrange(s, q, pp, 2 * li + 3 + rl, pp.len() as int);
        assert(pp.subrange(2 * li + 3 + rl, pp.len() as int) =~= tt2);
        assert(rest.len() > 0);
        lemma_ranges_tail_site(s, p1, rest, level);
        assert(forall|k: int|
            0 <= k < rest.len() ==> layout_wf(#[trigger] rest[k])) by {
            assert(forall|k: int| 0 <= k < rest.len() ==> rest[k] == #[trigger] l.mems@[k + 1]);
        }
        assert(s[p1] == ',');
        lemma_skip_ws_run(s, p1, p1);
        lemma_rt_ranges_tail(s, p1, p1, rest, level);
        assert(seq![m0] + rest =~= l.mems@);
    }
}

/// The first character of a printed sequence program: a bracket or the
/// start of a terminal; never whitespace, an `s`, or a minus sign.
proof fn lemma_pp_seq_prog_first(p: crate::routing::SequenceRoutingProg, level: nat)
    requires
        crate::routing::seq_prog_wf(p),
    ensures
        crate::pretty::pp_seq_prog(p, level).len() >= 1,
        !is_ws(crate::pretty::pp_seq_prog(p, level)[0]),
        crate::pretty::pp_seq_prog(p, level)[0] != 's',
        crate::pretty::pp_seq_prog(p, level)[0] != '-',
        crate::pretty::pp_seq_prog(p, level)[0] != ',',
        crate::pretty::pp_seq_prog(p, level)[0] != '}',
{
    reveal_strlit("[");
    match p {
        crate::routing::SequenceRoutingProg::Prog(t) => {
            lemma_pp_terminal_first(t);
        },
        crate::routing::SequenceRoutingProg::Sequence(ts) => {
            assert(crate::pretty::pp_seq_prog(p, level)[0] == "["@[0]);
        },
    }
}

/// The placement of the first guarded case inside the printed tail of a
/// switch block.
#[verifier::rlimit(100)]
#[verifier::spinoff_prover]
proof fn lemma_switch_tail_site(
    s: Seq<char>,
    q: int,
    cases: Seq<(Condition, crate::routing::SequenceRoutingProg)>,
    dflt: crate::routing::SequenceRoutingProg,
    level: nat,
)
    requires
        0 <= q,
        cases.len() > 0,
        crate::routing::seq_prog_wf(cases[0].1),
        crate::routing::seq_prog_wf(dflt),
        ({
            let tt = crate::pretty::pp_cases(cases, level) + crate::pretty::indent(level)
                + "\t -> "@ + crate::pretty::pp_seq_prog(dflt, (level + 1) as nat) + "\n"@
                + crate::pretty::indent(level) + "}"@;
            &&& q + tt.len() <= s.len()
            &&& s.subrange(q, q + tt.len()) == tt
        }),
    ensures
        ({
            let li: int = 4 * (level as int);
            let c0 = cases.first().0;
            let b0 = cases.first().1;
            let cl = pp_cond(c0).len() as int;
            let bl = crate::pretty::pp_seq_prog(b0, (level + 1) as nat).len() as int;
            let rest = cases.drop_first();
            let tt = crate::pretty::pp_cases(cases, level) + crate::pretty::indent(level)
                + "\t -> "@ + crate::pretty::pp_seq_prog(dflt, (level + 1) as nat) + "\n"@
                + crate::pretty::indent(level) + "}"@;
            let tt2 = crate::pretty::pp_cases(rest, level) + crate::pretty::indent(level)
                + "\t -> "@ + crate::pretty::pp_seq_prog(dflt, (level + 1) as nat) + "\n"@
                + crate::pretty::indent(level) + "}"@;
            &&& s[q + li + 1] == pp_cond(c0)[0]
            &&& skip_ws(s, q) == q + li + 1
            &&& s.subrange(q + li + 1, q + li + 1 + cl) == pp_cond(c0)
            &&& s[q + li + 1 + cl] == ' '
            &&& skip_ws(s, q + li + 1 + cl) == q + li + 2 + cl
            &&& s.subrange(q + li + 2 + cl, q + li + 4 + cl) == "->"@
            &&& s[q + li + 4 + cl] == ' '
            &&& skip_ws(s, q + li + 4 + cl) == q + li + 5 + cl
            &&& s.subrange(q + li + 5 + cl, q + li + 5 + cl + bl) == crate::pretty::pp_seq_prog(
                b0,
                (level + 1) as nat,
            )
            &&& s[q + li + 5 + cl + bl] == ','
            &&& skip_ws(s, q + li + 5 + cl + bl) == q + li + 5 + cl + bl
            &&& s.subrange(q + li + 7 + cl + bl, q + li + 7 + cl + bl + tt2.len()) == tt2
            &&& tt.len() == li + 7 + cl + bl + tt2.len()
            &&& skip_ws(s, q + li + 6 + cl + bl) == q + li + 7 + cl + bl + li + (
            if rest.len() > 0 {
                1int
            } else {
                2int
            })
        }),
{
    reveal_strlit("\t");
    reveal_strlit(" -> ");
    reveal_strlit("->");
    reveal_strlit("\t -> ");
    reveal_strlit(",\n");
    reveal_strlit("}");
    let li: int = 4 * (level as int);
    let ind = crate::pretty::indent(level);
    let c0 = cases.first().0;
    let b0 = cases.first().1;
    let cl = pp_cond(c0).len() as int;
    let bl = crate::pretty::pp_seq_prog(b0, (level + 1) as nat).len() as int;
    let rest = cases.drop_first();
    let tt = crate::pretty::pp_cases(cases, level) + ind + "\t -> "@ + crate::pretty::pp_seq_prog(
        dflt,
        (level + 1) as nat,
    ) + "\n"@ + ind + "}"@;
    let tt2 = crate::pretty::pp_cases(rest, level) + ind + "\t -> "@
        + crate::pretty::pp_seq_prog(dflt, (level + 1) as nat) + "\n"@ + ind + "}"@;
    lemma_pp_cond_first(c0);
    lemma_pp_seq_prog_first(b0, (level + 1) as nat);
    assert(crate::pretty::pp_cases(cases, level) == ind + "\t"@ + pp_cond(c0) + " -> "@
        + crate::pretty::pp_seq_prog(b0, (level + 1) as nat) + ",\n"@ + crate::pretty::pp_cases(
        rest,
        level,
    ));
    assert(tt =~= ind + "\t"@ + pp_cond(c0) + " -> "@ + crate::pretty::pp_seq_prog(
        b0,
        (level + 1) as nat,
    ) + ",\n"@ + tt2);
    assert forall|k: int| q <= k < q + li + 1 implies is_ws(#[trigger] s[k]) by {
        lemma_text_index(s, q, tt, k - q);
    }
    lemma_text_index(s, q, tt, li + 1);
    assert(s[q + li + 1] == pp_cond(c0)[0]);
    lemma_skip_ws_run(s, q, q + li + 1);
    lemma_text_subrange(s, q, tt, li + 1, li + 1 + cl);
    assert(tt.subrange(li + 1, li + 1 + cl) =~= pp_cond(c0));
    lemma_text_index(s, q, tt, li + 1 + cl);
    assert(s[q + li + 1 + cl] == ' ');
    lemma_text_index(s, q, tt, li + 2 + cl);
    assert(s[q + li + 2 + cl] == '-');
    lemma_skip_ws_run(s, q + li + 1 + cl, q + li + 2 + cl);
    lemma_text_subrange(s, q, tt, li + 2 + cl, li + 4 + cl);
    assert(tt.subrange(li + 2 + cl, li + 4 + cl) =~= "->"@);
    lemma_text_index(s, q, tt, li + 4 + cl);
    assert(s[q + li + 4 + cl] == ' ');
    lemma_text_index(s, q, tt, li + 5 + cl);
    assert(s[q + li + 5 + cl] == crate::pretty::pp_seq_prog(b0, (level + 1) as nat)[0]);
    lemma_skip_ws_run(s, q + li + 4 + cl, q + li + 5 + cl);
    lemma_text_subrange(s, q, tt, li + 5 + cl, li + 5 + cl + bl);
    assert(tt.subrange(li + 5 + cl, li + 5 + cl + bl) =~= crate::pretty::pp_seq_prog(
        b0,
        (level + 1) as nat,
    ));
    lemma_text_index(s, q, tt, li + 5 + cl + bl);
    assert(s[q + li + 5 + cl + bl] == ',');
    lemma_skip_ws_run(s, q + li + 5 + cl + bl, q + li + 5 + cl + bl);
    lemma_text_index(s, q, tt, li + 6 + cl + bl);
    assert(s[q + li + 6 + cl + bl] == '\n');
    lemma_text_subrange(s, q, tt, li + 7 + cl + bl, tt.len() as int);
    assert(tt.subrange(li + 7 + cl + bl, tt.len() as int) =~= tt2);
    let q2 = q + li + 7 + cl + bl;
    if rest.len() > 0 {
        assert(tt2 =~= ind + "\t"@ + pp_cond(rest.first().0) + " -> "@
            + crate::pretty::pp_seq_prog(rest.first().1, (level + 1) as nat) + ",\n"@ + (
        crate::pretty::pp_cases(rest.drop_first(), level) + ind + "\t -> "@
            + crate::pretty::pp_seq_prog(dflt, (level + 1) as nat) + "\n"@ + ind + "}"@));
        lemma_pp_cond_first(rest.first().0);
        assert forall|k: int| q + li + 6 + cl + bl <= k < q2 + li + 1 implies is_ws(
            #[trigger] s[k],
        ) by {
            if k >= q2 {
                lemma_text_index(s, q2, tt2, k - q2);
            }
        }
        lemma_text_index(s, q2, tt2, li + 1);
        assert(s[q2 + li + 1] == pp_cond(rest.first().0)[0]);
        lemma_skip_ws_run(s, q + li + 6 + cl + bl, q2 + li + 1);
    } else {
        assert(crate::pretty::pp_cases(rest, level) =~= Seq::<char>::empty());
        assert(tt2 =~= ind + "\t -> "@ + crate::pretty::pp_seq_prog(dflt, (level + 1) as nat)
            + "\n"@ + ind + "}"@);
        assert forall|k: int| q + li + 6 + cl + bl <= k < q2 + li + 2 implies is_ws(
            #[trigger] s[k],
        ) by {
            if k >= q2 {
                lemma_text_index(s, q2, tt2, k - q2);
            }
        }
        lemma_text_index(s, q2, tt2, li + 2);
        assert(s[q2 + li + 2] == '-');
        lemma_skip_ws_run(s, q + li + 6 + cl + bl, q2 + li + 2);
    }
}

/// Reading the bare default of a printed switch block yields it back.
#[verifier::rlimit(100)]
#[verifier::spinoff_prover]
proof fn lemma_rt_switch_default(
    s: Seq<char>,
    i: int,
    q: int,
    dflt: crate::routing::SequenceRoutingProg,
    level: nat,
)
    requires
        0 <= i <= s.len(),
        0 <= q,
        i <= q,
        crate::routing::seq_prog_wf(dflt),
        ({
            let tt = crate::pretty::indent(level) + "\t -> "@ + crate::pretty::pp_seq_prog(
                dflt,
                (level + 1) as nat,
            ) + "\n"@ + crate::pretty::indent(level) + "}"@;
            &&& q + tt.len() <= s.len()
            &&& s.subrange(q, q + tt.len()) == tt
        }),
        skip_ws(s, i) == q + 4 * (level as int) + 2,
    ensures
        crate::dsl::sp_switch_tail(s, i) matches Ok(r) && r.0 == Seq::<(
            Condition,
            crate::dsl::SeqProgModel,
        )>::empty() && r.1 == crate::dsl::seq_prog_view(dflt) && r.2 == q + 4 * (level as int)
            + 5 + crate::pretty::pp_seq_prog(dflt, (level + 1) as nat).len(),
{
    reveal(crate::dsl::sp_switch_tail);
    crate::dsl::lemma_skip_ws_bounds(s, i);
    reveal_strlit("->");
    reveal_strlit("\t -> ");
    reveal_strlit("}");
    reveal_strlit("\n");
    let li: int = 4 * (level as int);
    let ind = crate::pretty::indent(level);
    let dl = crate::pretty::pp_seq_prog(dflt, (level + 1) as nat).len() as int;
    let tt = ind + "\t -> "@ + crate::pretty::pp_seq_prog(dflt, (level + 1) as nat) + "\n"@
        + ind + "}"@;
    lemma_pp_seq_prog_first(dflt, (level + 1) as nat);
    lemma_text_index(s, q, tt, li + 2);
    assert(s[q + li + 2] == '-');
    lemma_text_subrange(s, q, tt, li + 2, li + 4);
    assert(tt.subrange(li + 2, li + 4) =~= "->"@);
    lemma_rt_lit(s, i, "->"@);
    lemma_text_index(s, q, tt, li + 4);
    assert(s[q + li + 4] == ' ');
    lemma_text_index(s, q, tt, li + 5);
    assert(s[q + li + 5] == crate::pretty::pp_seq_prog(dflt, (level + 1) as nat)[0]);
    lemma_skip_ws_run(s, q + li + 4, q + li + 5);
    lemma_text_subrange(s, q, tt, li + 5, li + 5 + dl);
    assert(tt.subrange(li + 5, li + 5 + dl) =~= crate::pretty::pp_seq_prog(
        dflt,
        (level + 1) as nat,
    ));
    lemma_text_index(s, q, tt, li + 5 + dl);
    assert(s[q + li + 5 + dl] == '\n');
    assert forall|k: int| q + li + 5 + dl <= k < q + tt.len() - 1 implies is_ws(
        #[trigger] s[k],
    ) by {
        lemma_text_index(s, q, tt, k - q);
    }
    lemma_text_index(s, q, tt, tt.len() - 1);
    assert(s[q + tt.len() - 1] == '}');
    lemma_skip_ws_run(s, q + li + 5 + dl, q + tt.len() - 1);
    lemma_rt_seq_prog(s, q + li + 4, dflt, (level + 1) as nat);
}

/// Reading the cases and the default of a printed switch block yields them
/// back; the newline after the default is left unread.
#[verifier::rlimit(100)]
#[verifier::spinoff_prover]
proof fn lemma_rt_switch_tail(
    s: Seq<char>,
    i: int,
    q: int,
    cases: Seq<(Condition, crate::routing::SequenceRoutingProg)>,
    dflt: crate::routing::SequenceRoutingProg,
    level: nat,
)
    requires
        0 <= i <= s.len(),
        0 <= q,
        i <= q,
        crate::routing::seq_prog_wf(dflt),
        forall|k: int| 0 <= k < cases.len() ==> crate::routing::seq_prog_wf((#[trigger] cases[k]).1),
        ({
            let tt = crate::pretty::pp_cases(cases, level) + crate::pretty::indent(level)
                + "\t -> "@ + crate::pretty::pp_seq_prog(dflt, (level + 1) as nat) + "\n"@
                + crate::pretty::indent(level) + "}"@;
            &&& q + tt.len() <= s.len()
            &&& s.subrange(q, q + tt.len()) == tt
        }),
        skip_ws(s, i) == q + 4 * (level as int) + (if cases.len() > 0 {
            1int
        } else {
            2int
        }),
    ensures
        crate::dsl::sp_switch_tail(s, i) matches Ok(r) && r.0 == cases.map_values(
            |cp: (Condition, crate::routing::SequenceRoutingProg)|
                (cp.0, crate::dsl::seq_prog_view(cp.1)),
        ) && r.1 == crate::dsl::seq_prog_view(dflt) && r.2 == q + crate::pretty::pp_cases(
            cases,
            level,
        ).len() + 4 * (level as int) + 5 + crate::pretty::pp_seq_prog(
            dflt,
            (level + 1) as nat,
        ).len(),
    decreases cases.len(),
{
    reveal(crate::dsl::sp_switch_tail);
    crate::dsl::lemma_skip_ws_bounds(s, i);
    reveal_strlit("->");
    reveal_strlit("\t -> ");
    reveal_strlit("}");
    let li: int = 4 * (level as int);
    let ind = crate::pretty::indent(level);
    let f = |cp: (Condition, crate::routing::SequenceRoutingProg)|
        (cp.0, crate::dsl::seq_prog_view(cp.1));
    let tt = crate::pretty::pp_cases(cases, level) + ind + "\t -> "@
        + crate::pretty::pp_seq_prog(dflt, (level + 1) as nat) + "\n"@ + ind + "}"@;
    let dl = crate::pretty::pp_seq_prog(dflt, (level + 1) as nat).len() as int;
    if cases.len() == 0 {
        lemma_rt_switch_default(s, i, q, dflt, level);
        assert(cases.map_values(f) =~= Seq::<(Condition, crate::dsl::SeqProgModel)>::empty());
        assert(crate::pretty::pp_cases(cases, level) =~= Seq::<char>::empty());
    } else {
        let c0 = cases.first().0;
        let b0 = cases.first().1;
        let cl = pp_cond(c0).len() as int;
        let bl = crate::pretty::pp_seq_prog(b0, (level + 1) as nat).len() as int;
        let rest = cases.drop_first();
        assert(crate::routing::seq_prog_wf(cases[0].1));
        lemma_switch_tail_site(s, q, cases, dflt, level);
        lemma_pp_cond_first(c0);
        assert(crate::dsl::sp_lit(s, i, "->"@) is Err) by {
            if crate::dsl::sp_lit(s, i, "->"@) is Ok {
                assert(lit_at(s, q + li + 1, "->"@));
                assert(s.subrange(q + li + 1, q + li + 3)[0] == '-');
            }
        }
        lemma_rt_cond(s, i, c0);
        lemma_rt_lit(s, q + li + 1 + cl, "->"@);
        lemma_rt_seq_prog(s, q + li + 4 + cl, b0, (level + 1) as nat);
        reveal_strlit(",");
        assert(s.subrange(q + li + 5 + cl + bl, q + li + 6 + cl + bl) =~= ","@);
        lemma_rt_lit(s, q + li + 5 + cl + bl, ","@);
        assert(forall|k: int|
            0 <= k < rest.len() ==> crate::routing::seq_prog_wf((#[trigger] rest[k]).1)) by {
            assert(forall|k: int| 0 <= k < rest.len() ==> rest[k] == #[trigger] cases[k + 1]);
        }
        lemma_rt_switch_tail(s, q + li + 6 + cl + bl, q + li + 7 + cl + bl, rest, dflt, level);
        assert(cases.map_values(f) =~= seq![(c0, crate::dsl::seq_prog_view(b0))]
            + rest.map_values(f));
    }
}

/// The placement of the pieces of a printed switch block: the keyword, the
/// opening brace, the case tail, and the closing brace.
#[verifier::rlimit(100)]
#[verifier::spinoff_prover]
proof fn lemma_switch_block_site(
    s: Seq<char>,
    q: int,
    cases: Seq<(Condition, crate::routing::SequenceRoutingProg)>,
    dflt: crate::routing::SequenceRoutingProg,
    level: nat,
)
    requires
        0 <= q,
        crate::routing::seq_prog_wf(dflt),
        forall|k: int| 0 <= k < cases.len() ==> crate::routing::seq_prog_wf((#[trigger] cases[k]).1),
        ({
            let pp = crate::pretty::indent(level) + "switch {\n"@ + crate::pretty::pp_cases(
                cases,
                level as nat,
            ) + crate::pretty::indent(level) + "\t -> "@ + crate::pretty::pp_seq_prog(
                dflt,
                (level + 1) as nat,
            ) + "\n"@ + crate::pretty::indent(level) + "}\n"@;
            &&& q + pp.len() <= s.len()
            &&& s.subrange(q, q + pp.len()) == pp
        }),
    ensures
        ({
            let li: int = 4 * (level as int);
            let tt = crate::pretty::pp_cases(cases, level as nat) + crate::pretty::indent(level)
                + "\t -> "@ + crate::pretty::pp_seq_prog(dflt, (level + 1) as nat) + "\n"@
                + crate::pretty::indent(level) + "}"@;
            let dl = crate::pretty::pp_seq_prog(dflt, (level + 1) as nat).len() as int;
            let r2 = q + li + 9 + crate::pretty::pp_cases(cases, level as nat).len() as int + li
                + 5 + dl;
            &&& s.subrange(q + li, q + li + 6) == "switch"@
            &&& s[q + li + 6] == ' '
            &&& skip_ws(s, q + li + 6) == q + li + 7
            &&& s.subrange(q + li + 7, q + li + 8) == "{"@
            &&& s.subrange(q + li + 9, q + li + 9 + tt.len()) == tt
            &&& skip_ws(s, q + li + 8) == q + li + 9 + li + (if cases.len() > 0 {
                1int
            } else {
                2int
            })
            &&& skip_ws(s, r2) == q + li + 9 + tt.len() - 1
            &&& s.subrange(q + li + 9 + tt.len() - 1, q + li + 9 + tt.len()) == "}"@
        }),
{
    reveal_strlit("switch");
    reveal_strlit("switch {\n");
    reveal_strlit("{");
    reveal_strlit("}");
    reveal_strlit("}\n");
    reveal_strlit("\t");
    reveal_strlit("\t -> ");
    reveal_strlit("\n");
    let li: int = 4 * (level as int);
    let ind = crate::pretty::indent(level);
    let dl = crate::pretty::pp_seq_prog(dflt, (level + 1) as nat).len() as int;
    let tt = crate::pretty::pp_cases(cases, level as nat) + ind + "\t -> "@
        + crate::pretty::pp_seq_prog(dflt, (level + 1) as nat) + "\n"@ + ind + "}"@;
    let pp = ind + "switch {\n"@ + crate::pretty::pp_cases(cases, level as nat) + ind
        + "\t -> "@ + crate::pretty::pp_seq_prog(dflt, (level + 1) as nat) + "\n"@ + ind
        + "}\n"@;
    assert(pp =~= ind + "switch {\n"@ + tt + "\n"@);
    lemma_text_subrange(s, q, pp, li, li + 6);
    assert(pp.subrange(li, li + 6) =~= "switch"@);
    lemma_text_index(s, q, pp, li + 6);
    lemma_text_index(s, q, pp, li + 7);
    lemma_skip_ws_run(s, q + li + 6, q + li + 7);
    lemma_text_subrange(s, q, pp, li + 7, li + 8);
    assert(pp.subrange(li + 7, li + 8) =~= "{"@);
    lemma_text_subrange(s, q, pp, li + 9, li + 9 + tt.len());
    assert(pp.subrange(li + 9, li + 9 + tt.len()) =~= tt);
    let p0 = q + li + 8;
    let qt = q + li + 9;
    lemma_text_index(s, q, pp, li + 8);
    assert(s[p0] == '\n');
    if cases.len() > 0 {
        lemma_pp_cond_first(cases.first().0);
        assert(tt[li + 1] == pp_cond(cases.first().0)[0]) by {
            assert(crate::pretty::pp_cases(cases, level as nat) == ind + "\t"@ + pp_cond(
                cases.first().0,
            ) + " -> "@ + crate::pretty::pp_seq_prog(cases.first().1, (level + 1) as nat)
                + ",\n"@ + crate::pretty::pp_cases(cases.drop_first(), level as nat));
        }
        assert forall|k: int| p0 <= k < qt + li + 1 implies is_ws(#[trigger] s[k]) by {
            if k >= qt {
                lemma_text_index(s, qt, tt, k - qt);
            }
        }
        lemma_text_index(s, qt, tt, li + 1);
        lemma_skip_ws_run(s, p0, qt + li + 1);
    } else {
        assert(crate::pretty::pp_cases(cases, level as nat) =~= Seq::<char>::empty());
        assert(tt =~= ind + "\t -> "@ + crate::pretty::pp_seq_prog(dflt, (level + 1) as nat)
            + "\n"@ + ind + "}"@);
        assert forall|k: int| p0 <= k < qt + li + 2 implies is_ws(#[trigger] s[k]) by {
            if k >= qt {
                lemma_text_index(s, qt, tt, k - qt);
            }
        }
        lemma_text_index(s, qt, tt, li + 2);
        assert(s[qt + li + 2] == '-');
        lemma_skip_ws_run(s, p0, qt + li + 2);
    }
    let r2 = qt + crate::pretty::pp_cases(cases, level as nat).len() as int + li + 5 + dl;
    lemma_text_index(s, qt, tt, r2 - qt);
    assert(s[r2] == '\n');
    assert forall|k: int| r2 <= k < qt + tt.len() - 1 implies is_ws(#[trigger] s[k]) by {
        lemma_text_index(s, qt, tt, k - qt);
    }
    lemma_text_index(s, qt, tt, tt.len() - 1);
    assert(s[qt + tt.len() - 1] == '}');
    lemma_skip_ws_run(s, r2, qt + tt.len() - 1);
    lemma_text_subrange(s, qt, tt, tt.len() - 1, tt.len() as int);
    assert(tt.subrange(tt.len() - 1, tt.len() as int) =~= "}"@);
}

/// Reading a routing program over its printed text yields it back; a
/// switch block leaves the newline after its closing brace unread.
#[verifier::rlimit(100)]
#[verifier::spinoff_prover]
pub proof fn lemma_rt_top_prog(
    s: Seq<char>,
    i: int,
    q: int,
    p: crate::routing::TopLevelRoutingProgram,
    level: nat,
)
    requires
        0 <= i <= s.len(),
        0 <= q,
        crate::routing::top_prog_wf(p),
        ({
            let pp = crate::pretty::pp_top_prog(p, level as nat);
            &&& q + pp.len() <= s.len()
            &&& s.subrange(q, q + pp.len()) == pp
        }),
        skip_ws(s, i) == q + if p is Switch {
            4 * (level as int)
        } else {
            0
        },
        i <= q,
        p is Prog ==> ({
            let e = q + crate::pretty::pp_top_prog(p, level as nat).len();
            &&& (e == s.len() || (!is_digit(s[e]) && s[e] != 'x'))
            &&& (skip_ws(s, e) == s.len() || s[skip_ws(s, e)] != '-')
        }),
    ensures
        crate::dsl::sp_top_prog(s, i) matches Ok(r) && r.0 == crate::dsl::top_prog_view(p)
            && r.1 == q + crate::pretty::pp_top_prog(p, level as nat).len() - if p is Switch {
            1int
        } else {
            0int
        },
{
    reveal(crate::dsl::sp_top_prog);
    crate::dsl::lemma_skip_ws_bounds(s, i);
    let li: int = 4 * (level as int);
    let pp = crate::pretty::pp_top_prog(p, level as nat);
    reveal_strlit("switch");
    reveal_strlit("switch {\n");
    reveal_strlit("{");
    reveal_strlit("}");
    reveal_strlit("}\n");
    reveal_strlit("\t -> ");
    reveal_strlit("\n");
    match p {
        crate::routing::TopLevelRoutingProgram::Prog(sp) => {
            lemma_pp_seq_prog_first(sp, level as nat);
            lemma_text_index(s, q, pp, 0);
            assert(s[q] == crate::pretty::pp_seq_prog(sp, level as nat)[0]);
            assert(!lit_at(s, q, "switch"@)) by {
                if lit_at(s, q, "switch"@) {
                    assert(s.subrange(q, q + 6)[0] == 's');
                }
            }
            lemma_rt_seq_prog(s, i, sp, level as nat);
        },
        crate::routing::TopLevelRoutingProgram::Switch(cases, dflt) => {
            let dl = crate::pretty::pp_seq_prog(*dflt, (level + 1) as nat).len() as int;
            let tt = crate::pretty::pp_cases(cases@, level as nat) + crate::pretty::indent(level)
                + "\t -> "@ + crate::pretty::pp_seq_prog(*dflt, (level + 1) as nat) + "\n"@
                + crate::pretty::indent(level) + "}"@;
            assert(crate::routing::seq_prog_wf(*dflt));
            assert(forall|k: int|
                0 <= k < cases@.len() ==> crate::routing::seq_prog_wf(
                    (#[trigger] cases@[k]).1,
                ));
            assert(pp =~= crate::pretty::indent(level) + "switch {\n"@
                + crate::pretty::pp_cases(cases@, level as nat) + crate::pretty::indent(level)
                + "\t -> "@ + crate::pretty::pp_seq_prog(*dflt, (level + 1) as nat) + "\n"@
                + crate::pretty::indent(level) + "}\n"@);
            assert(pp =~= crate::pretty::indent(level) + "switch {\n"@ + tt + "\n"@);
            lemma_switch_block_site(s, q, cases@, *dflt, level);
            assert(s.subrange(q + li + 9, q + li + 9 + tt.len()) == tt);
            assert(lit_at(s, q + li, "switch"@));
            reveal_strlit("{");
            lemma_rt_lit(s, q + li + 6, "{"@);
            lemma_rt_switch_tail(s, q + li + 8, q + li + 9, cases@, *dflt, level as nat);
            let r2 = q + li + 9 + crate::pretty::pp_cases(cases@, level as nat).len() as int + li
                + 5 + dl;
            reveal_strlit("}");
            lemma_rt_lit(s, r2, "}"@);
            assert(crate::dsl::top_prog_view(p) =~~= crate::dsl::TopProgModel::Switch(
                cases@.map_values(
                    |cp: (Condition, crate::routing::SequenceRoutingProg)|
                        (cp.0, crate::dsl::seq_prog_view(cp.1)),
                ),
                crate::dsl::seq_prog_view(*dflt),
            ));
        },
    }
}

/// A bank whose printed text reads back: a non-empty layout of well-formed
/// ranges and a well-formed routing program.
pub open spec fn printable_bank(b: crate::component::MemoryBank) -> bool {
    &&& crate::pretty::bank_pp_wf(b)
    &&& crate::layout::tlml_ranges_wf(b.memory_layout.mems@)
}

/// The exact layout of a printed bank at nesting level one.
#[verifier::rlimit(100)]
#[verifier::spinoff_prover]
proof fn lemma_pp_bank_shape(b: crate::component::MemoryBank)
    requires
        printable_bank(b),
    ensures
        ({
            let pp = crate::pretty::pp_bank(b, 1);
            let ll = crate::pretty::pp_layout(b.memory_layout, 2).len() as int;
            let tl = crate::pretty::pp_top_prog(b.routing, 2).len() as int;
            &&& pp.len() == 51 + ll + tl
            &&& (forall|k: int| 0 <= k < 4 ==> is_ws(#[trigger] pp[k]))
            &&& pp.subrange(4, 8) == "bank"@
            &&& pp[8] == ' '
            &&& pp.subrange(9, 10) == "{"@
            &&& (forall|k: int| 10 <= k < 16 ==> is_ws(#[trigger] pp[k]))
            &&& pp.subrange(16, 22) == "layout"@
            &&& pp.subrange(22, 23) == ":"@
            &&& pp[23] == ' '
            &&& pp.subrange(24, 24 + ll) == crate::pretty::pp_layout(b.memory_layout, 2)
            &&& pp.subrange(24 + ll, 25 + ll) == ","@
            &&& (forall|k: int| 25 + ll <= k < 31 + ll ==> is_ws(#[trigger] pp[k]))
            &&& pp.subrange(31 + ll, 42 + ll) == "translation"@
            &&& pp.subrange(42 + ll, 43 + ll) == ":"@
            &&& pp[43 + ll] == ' '
            &&& pp.subrange(44 + ll, 44 + ll + tl) == crate::pretty::pp_top_prog(b.routing, 2)
            &&& (forall|k: int| 44 + ll + tl <= k < 49 + ll + tl ==> is_ws(#[trigger] pp[k]))
            &&& pp.subrange(49 + ll + tl, 50 + ll + tl) == "}"@
            &&& pp[50 + ll + tl] == '\n'
        }),
{
    reveal(crate::pretty::pp_bank);
    reveal_strlit("bank");
    reveal_strlit("bank {\n");
    reveal_strlit("{");
    reveal_strlit("layout");
    reveal_strlit("\tlayout: ");
    reveal_strlit(":");
    reveal_strlit(",");
    reveal_strlit(",\n");
    reveal_strlit("translation");
    reveal_strlit("\ttranslation: ");
    reveal_strlit("\n");
    reveal_strlit("}");
    reveal_strlit("}\n");
    let pp = crate::pretty::pp_bank(b, 1);
    let ll = crate::pretty::pp_layout(b.memory_layout, 2).len() as int;
    let tl = crate::pretty::pp_top_prog(b.routing, 2).len() as int;
    assert(crate::pretty::indent(1) =~= Seq::new(4, |k: int| ' '));
    assert(pp.len() == 51 + ll + tl);
    assert(pp.subrange(4, 8) =~= "bank"@);
    assert(pp.subrange(9, 10) =~= "{"@);
    assert(pp.subrange(16, 22) =~= "layout"@);
    assert(pp.subrange(22, 23) =~= ":"@);
    assert(pp.subrange(24, 24 + ll) =~= crate::pretty::pp_layout(b.memory_layout, 2));
    assert(pp.subrange(24 + ll, 25 + ll) =~= ","@);
    assert(pp.subrange(31 + ll, 42 + ll) =~= "translation"@);
    assert(pp.subrange(42 + ll, 43 + ll) =~= ":"@);
    assert(pp.subrange(44 + ll, 44 + ll + tl) =~= crate::pretty::pp_top_prog(b.routing, 2));
    assert(pp.subrange(49 + ll + tl, 50 + ll + tl) =~= "}"@);
}

/// The first characters of a printed layout: spaces before the bracket of a
/// range list, the bracket itself for a single range.
proof fn lemma_pp_layout_first(l: crate::layout::TopLevelMemoryLayout)
    requires
        l.mems@.len() >= 1,
    ensures
        ({
            let lt = crate::pretty::pp_layout(l, 2);
            let ol: int = if l.mems@.len() >= 2 {
                8
            } else {
                0
            };
            &&& lt.len() > ol
            &&& (forall|k: int| 0 <= k < ol ==> is_ws(#[trigger] lt[k]))
            &&& lt[ol] == '['
        }),
{
    reveal_strlit("[");
    reveal_strlit("[\n");
    let lt = crate::pretty::pp_layout(l, 2);
    if l.mems@.len() >= 2 {
        assert(crate::pretty::indent(2) =~= Seq::new(8, |k: int| ' '));
        assert(lt[8] == "[\n"@[0]);
    } else {
        assert(lt[0] == pp_range(l.mems@[0])[0]);
        assert(pp_range(l.mems@[0])[0] == "["@[0]);
    }
}

/// The first characters of a printed routing program: spaces before the
/// keyword of a switch block, the program itself otherwise.
proof fn lemma_pp_top_prog_first(p: crate::routing::TopLevelRoutingProgram)
    requires
        crate::routing::top_prog_wf(p),
    ensures
        ({
            let pt = crate::pretty::pp_top_prog(p, 2);
            let ot: int = if p is Switch {
                8
            } else {
                0
            };
            &&& pt.len() > ot
            &&& (forall|k: int| 0 <= k < ot ==> is_ws(#[trigger] pt[k]))
            &&& !is_ws(pt[ot])
        }),
{
    reveal_strlit("switch {\n");
    let pt = crate::pretty::pp_top_prog(p, 2);
    match p {
        crate::routing::TopLevelRoutingProgram::Switch(cases, dflt) => {
            assert(crate::pretty::indent(2) =~= Seq::new(8, |k: int| ' '));
            assert(pt[8] == "switch {\n"@[0]);
        },
        crate::routing::TopLevelRoutingProgram::Prog(sp) => {
            lemma_pp_seq_prog_first(sp, 2);
            assert(pt[0] == crate::pretty::pp_seq_prog(sp, 2)[0]);
        },
    }
}

/// The opening tokens of a printed bank.
#[verifier::rlimit(100)]
#[verifier::spinoff_prover]
proof fn lemma_rt_bank_tok1(s: Seq<char>, i: int, q: int, b: crate::component::MemoryBank)
    requires
        0 <= i <= s.len(),
        0 <= q,
        q + crate::pretty::pp_bank(b, 1).len() <= s.len(),
        s.subrange(q, q + crate::pretty::pp_bank(b, 1).len()) == crate::pretty::pp_bank(b, 1),
        skip_ws(s, i) == q + 4,
        printable_bank(b),
    ensures
        sp_lit(s, i, "bank"@) == Ok::<int, int>(q + 8),
        sp_lit(s, q + 8, "{"@) == Ok::<int, int>(q + 10),
        sp_lit(s, q + 10, "layout"@) == Ok::<int, int>(q + 22),
        sp_lit(s, q + 22, ":"@) == Ok::<int, int>(q + 23),
{
    crate::dsl::lemma_skip_ws_bounds(s, i);
    let pp = crate::pretty::pp_bank(b, 1);
    lemma_pp_bank_shape(b);
    reveal_strlit("bank");
    reveal_strlit("{");
    reveal_strlit("layout");
    reveal_strlit(":");
    lemma_text_subrange(s, q, pp, 4, 8);
    lemma_rt_lit(s, i, "bank"@);
    let p0 = q + 8;
    lemma_text_index(s, q, pp, 8);
    lemma_text_index(s, q, pp, 9);
    assert(pp[9] == pp.subrange(9, 10)[0]);
    assert(s[q + 8] == ' ' && s[q + 9] == '{');
    lemma_skip_ws_run(s, p0, q + 9);
    lemma_text_subrange(s, q, pp, 9, 10);
    lemma_rt_lit(s, p0, "{"@);
    let p1 = q + 10;
    assert forall|k: int| p1 <= k < q + 16 implies is_ws(#[trigger] s[k]) by {
        lemma_text_index(s, q, pp, k - q);
    }
    lemma_text_index(s, q, pp, 16);
    assert(pp[16] == pp.subrange(16, 22)[0]);
    assert(s[q + 16] == 'l');
    lemma_skip_ws_run(s, p1, q + 16);
    lemma_text_subrange(s, q, pp, 16, 22);
    lemma_rt_lit(s, p1, "layout"@);
    let p2 = q + 22;
    lemma_text_index(s, q, pp, 22);
    assert(pp[22] == pp.subrange(22, 23)[0]);
    assert(s[q + 22] == ':');
    lemma_skip_ws_run(s, p2, p2);
    lemma_text_subrange(s, q, pp, 22, 23);
    lemma_rt_lit(s, p2, ":"@);
}

/// The layout of a printed bank and the comma after it.
#[verifier::rlimit(100)]
#[verifier::spinoff_prover]
proof fn lemma_rt_bank_tok2(s: Seq<char>, q: int, b: crate::component::MemoryBank)
    requires
        0 <= q,
        q + crate::pretty::pp_bank(b, 1).len() <= s.len(),
        s.subrange(q, q + crate::pretty::pp_bank(b, 1).len()) == crate::pretty::pp_bank(b, 1),
        printable_bank(b),
    ensures
        ({
            let ll = crate::pretty::pp_layout(b.memory_layout, 2).len() as int;
            let dlay: int = if b.memory_layout.mems@.len() >= 2 {
                1
            } else {
                0
            };
            &&& crate::dsl::sp_layout(s, q + 23) matches Ok(rl) && rl.0
                == b.memory_layout.mems@ && rl.1 == q + 24 + ll - dlay
            &&& sp_lit(s, q + 24 + ll - dlay, ","@) == Ok::<int, int>(q + 25 + ll)
        }),
{
    reveal(crate::dsl::sp_layout);
    let pp = crate::pretty::pp_bank(b, 1);
    let lt = crate::pretty::pp_layout(b.memory_layout, 2);
    let ll = lt.len() as int;
    let ol: int = if b.memory_layout.mems@.len() >= 2 {
        8
    } else {
        0
    };
    let dlay: int = if b.memory_layout.mems@.len() >= 2 {
        1
    } else {
        0
    };
    lemma_pp_bank_shape(b);
    reveal_strlit(",");
    reveal_strlit("\n]\n");
    lemma_pp_layout_first(b.memory_layout);
    let p3 = q + 23;
    lemma_text_index(s, q, pp, 23);
    assert(s[q + 23] == ' ');
    lemma_text_subrange(s, q, pp, 24, 24 + ll);
    assert forall|k: int| p3 <= k < q + 24 + ol implies is_ws(#[trigger] s[k]) by {
        if k >= q + 24 {
            lemma_text_index(s, q + 24, lt, k - q - 24);
        }
    }
    lemma_text_index(s, q + 24, lt, ol);
    assert(s[q + 24 + ol] == '[');
    lemma_skip_ws_run(s, p3, q + 24 + ol);
    lemma_rt_layout(s, p3, q + 24, b.memory_layout, 2);
    let p4 = q + 24 + ll - dlay;
    lemma_text_index(s, q, pp, 24 + ll);
    assert(pp[24 + ll] == pp.subrange(24 + ll, 25 + ll)[0]);
    assert(s[q + 24 + ll] == ',');
    if dlay == 1 {
        lemma_text_index(s, q + 24, lt, ll - 1);
        assert(lt[ll - 1] == '\n') by {
            assert(crate::pretty::pp_layout(b.memory_layout, 2) == crate::pretty::indent(2)
                + "[\n"@ + crate::pretty::indent(2) + "\t"@ + pp_range(b.memory_layout.mems@[0])
                + crate::pretty::pp_ranges_rest(b.memory_layout.mems@.skip(1), crate::pretty::indent(2))
                + crate::pretty::indent(2) + "\n]\n"@);
        }
        assert(is_ws(s[q + 24 + ll - 1]));
        lemma_skip_ws_run(s, p4, q + 24 + ll);
    } else {
        lemma_skip_ws_run(s, p4, p4);
    }
    lemma_text_subrange(s, q, pp, 24 + ll, 25 + ll);
    lemma_rt_lit(s, p4, ","@);
}

/// The translation tokens of a printed bank.
#[verifier::rlimit(100)]
#[verifier::spinoff_prover]
proof fn lemma_rt_bank_tok3(s: Seq<char>, q: int, b: crate::component::MemoryBank)
    requires
        0 <= q,
        q + crate::pretty::pp_bank(b, 1).len() <= s.len(),
        s.subrange(q, q + crate::pretty::pp_bank(b, 1).len()) == crate::pretty::pp_bank(b, 1),
        printable_bank(b),
    ensures
        ({
            let ll = crate::pretty::pp_layout(b.memory_layout, 2).len() as int;
            &&& sp_lit(s, q + 25 + ll, "translation"@) == Ok::<int, int>(q + 42 + ll)
            &&& sp_lit(s, q + 42 + ll, ":"@) == Ok::<int, int>(q + 43 + ll)
        }),
{
    let pp = crate::pretty::pp_bank(b, 1);
    let ll = crate::pretty::pp_layout(b.memory_layout, 2).len() as int;
    lemma_pp_bank_shape(b);
    reveal_strlit("translation");
    reveal_strlit(":");
    let p5 = q + 25 + ll;
    assert forall|k: int| p5 <= k < q + 31 + ll implies is_ws(#[trigger] s[k]) by {
        lemma_text_index(s, q, pp, k - q);
    }
    lemma_text_index(s, q, pp, 31 + ll);
    assert(pp[31 + ll] == pp.subrange(31 + ll, 42 + ll)[0]);
    assert(s[q + 31 + ll] == 't');
    lemma_skip_ws_run(s, p5, q + 31 + ll);
    lemma_text_subrange(s, q, pp, 31 + ll, 42 + ll);
    lemma_rt_lit(s, p5, "translation"@);
    let q0 = q + 42 + ll;
    lemma_text_index(s, q, pp, 42 + ll);
    assert(pp[42 + ll] == pp.subrange(42 + ll, 43 + ll)[0]);
    assert(s[q0] == ':');
    lemma_skip_ws_run(s, q0, q0);
    lemma_text_subrange(s, q, pp, 42 + ll, 43 + ll);
    lemma_rt_lit(s, q0, ":"@);
}

/// The routing program of a printed bank, and where the closing brace
/// stands after it.
#[verifier::rlimit(100)]
#[verifier::spinoff_prover]
proof fn lemma_rt_bank_tok4(s: Seq<char>, q: int, b: crate::component::MemoryBank)
    requires
        0 <= q,
        q + crate::pretty::pp_bank(b, 1).len() <= s.len(),
        s.subrange(q, q + crate::pretty::pp_bank(b, 1).len()) == crate::pretty::pp_bank(b, 1),
        printable_bank(b),
    ensures
        ({
            let ll = crate::pretty::pp_layout(b.memory_layout, 2).len() as int;
            let tl = crate::pretty::pp_top_prog(b.routing, 2).len() as int;
            let dtop: int = if b.routing is Switch {
                1
            } else {
                0
            };
            &&& crate::dsl::sp_top_prog(s, q + 43 + ll) matches Ok(rp) && rp.0
                == crate::dsl::top_prog_view(b.routing) && rp.1 == q + 44 + ll + tl - dtop
            &&& sp_lit(s, q + 44 + ll + tl - dtop, "}"@) == Ok::<int, int>(
                q + 50 + ll + tl,
            )
        }),
{
    let pp = crate::pretty::pp_bank(b, 1);
    let tp = crate::pretty::pp_top_prog(b.routing, 2);
    let ll = crate::pretty::pp_layout(b.memory_layout, 2).len() as int;
    let tl = tp.len() as int;
    let ot: int = if b.routing is Switch {
        8
    } else {
        0
    };
    let dtop: int = if b.routing is Switch {
        1
    } else {
        0
    };
    lemma_pp_bank_shape(b);
    reveal_strlit("}");
    reveal_strlit("\n");
    reveal_strlit("}\n");
    lemma_pp_top_prog_first(b.routing);
    let q1 = q + 43 + ll;
    lemma_text_index(s, q, pp, 43 + ll);
    assert(s[q1] == ' ');
    lemma_text_subrange(s, q, pp, 44 + ll, 44 + ll + tl);
    assert forall|k: int| q1 <= k < q + 44 + ll + ot implies is_ws(#[trigger] s[k]) by {
        if k >= q + 44 + ll {
            lemma_text_index(s, q + 44 + ll, tp, k - q - 44 - ll);
        }
    }
    lemma_text_index(s, q + 44 + ll, tp, ot);
    assert(!is_ws(s[q + 44 + ll + ot]));
    lemma_skip_ws_run(s, q1, q + 44 + ll + ot);
    lemma_text_index(s, q, pp, 44 + ll + tl);
    assert(pp[44 + ll + tl] == '\n') by {
        assert(forall|k: int| 44 + ll + tl <= k < 49 + ll + tl ==> is_ws(#[trigger] pp[k]));
        assert(is_ws(pp[44 + ll + tl]));
        reveal(crate::pretty::pp_bank);
    }
    assert(!is_digit(s[q + 44 + ll + tl]) && s[q + 44 + ll + tl] != 'x') by {
        assert(is_ws(s[q + 44 + ll + tl]));
    }
    assert forall|k: int| q + 44 + ll + tl <= k < q + 49 + ll + tl implies is_ws(
        #[trigger] s[k],
    ) by {
        lemma_text_index(s, q, pp, k - q);
    }
    lemma_text_index(s, q, pp, 49 + ll + tl);
    assert(pp[49 + ll + tl] == pp.subrange(49 + ll + tl, 50 + ll + tl)[0]);
    assert(s[q + 49 + ll + tl] == '}');
    lemma_skip_ws_run(s, q + 44 + ll + tl, q + 49 + ll + tl);
    lemma_rt_top_prog(s, q1, q + 44 + ll, b.routing, 2);
    if dtop == 1 {
        lemma_text_index(s, q + 44 + ll, tp, tl - 1);
        assert(tp[tl - 1] == '\n') by {
            lemma_pp_top_prog_last_switch(b.routing);
        }
        assert(is_ws(s[q + 44 + ll + tl - 1]));
        lemma_skip_ws_run(s, q + 44 + ll + tl - 1, q + 49 + ll + tl);
    }
    lemma_text_subrange(s, q, pp, 49 + ll + tl, 50 + ll + tl);
    lemma_rt_lit(s, q + 44 + ll + tl - dtop, "}"@);
}

/// A printed switch block ends with a newline.
proof fn lemma_pp_top_prog_last_switch(p: crate::routing::TopLevelRoutingProgram)
    requires
        p is Switch,
    ensures
        crate::pretty::pp_top_prog(p, 2).len() >= 1,
        crate::pretty::pp_top_prog(p, 2)[crate::pretty::pp_top_prog(p, 2).len() - 1] == '\n',
{
    reveal_strlit("}\n");
    let pt = crate::pretty::pp_top_prog(p, 2);
    match p {
        crate::routing::TopLevelRoutingProgram::Switch(cases, dflt) => {
            assert(pt[pt.len() - 1] == "}\n"@[1]);
        },
        _ => {},
    }
}

/// Reading a bank over its printed text (at nesting level one) yields the
/// bank back; the parse stops on the newline after the closing brace.
#[verifier::rlimit(100)]
#[verifier::spinoff_prover]
proof fn lemma_rt_bank(s: Seq<char>, i: int, q: int, b: crate::component::MemoryBank)
    requires
        0 <= i <= s.len(),
        0 <= q,
        q + crate::pretty::pp_bank(b, 1).len() <= s.len(),
        s.subrange(q, q + crate::pretty::pp_bank(b, 1).len()) == crate::pretty::pp_bank(b, 1),
        skip_ws(s, i) == q + 4,
        printable_bank(b),
    ensures
        crate::dsl::sp_bank(s, i) matches Ok(r) && r.0 == crate::dsl::bank_view(b) && r.1 == q
            + crate::pretty::pp_bank(b, 1).len() - 1,
{
    reveal(crate::dsl::sp_bank);
    crate::dsl::lemma_skip_ws_bounds(s, i);
    let pp = crate::pretty::pp_bank(b, 1);
    let ll = crate::pretty::pp_layout(b.memory_layout, 2).len() as int;
    let tl = crate::pretty::pp_top_prog(b.routing, 2).len() as int;
    lemma_pp_bank_shape(b);
    lemma_rt_bank_tok1(s, i, q, b);
    lemma_rt_bank_tok2(s, q, b);
    lemma_rt_bank_tok3(s, q, b);
    lemma_rt_bank_tok4(s, q, b);
    assert(crate::dsl::bank_view(b) =~~= crate::dsl::BankModel {
        routing: crate::dsl::top_prog_view(b.routing),
        layout: b.memory_layout.mems@,
    });
}

/// A component whose printed text reads back: at least one printable bank,
/// and a size that fits the machine.
pub open spec fn printable_component(c: crate::component::Component) -> bool {
    &&& c.banks@.len() >= 1
    &&& c.size <= usize::MAX
    &&& forall|k: int| 0 <= k < c.banks@.len() ==> printable_bank(#[trigger] c.banks@[k])
}

/// Reading the printed banks of a component, one after another, up to the
/// closing brace, yields the banks back.
#[verifier::rlimit(100)]
#[verifier::spinoff_prover]
proof fn lemma_rt_banks_tail(s: Seq<char>, i: int, q: int, banks: Seq<crate::component::MemoryBank>)
    requires
        0 <= i <= s.len(),
        0 <= q,
        i <= q + 4,
        q + crate::pretty::pp_banks(banks).len() + 1 <= s.len(),
        s.subrange(q, q + crate::pretty::pp_banks(banks).len() + 1) == crate::pretty::pp_banks(
            banks,
        ) + "}"@,
        skip_ws(s, i) == if banks.len() > 0 {
            q + 4
        } else {
            q
        },
        forall|k: int| 0 <= k < banks.len() ==> printable_bank(#[trigger] banks[k]),
    ensures
        crate::dsl::sp_banks_tail(s, i) matches Ok(r) && r.0 == banks.map_values(
            |bb: crate::component::MemoryBank| crate::dsl::bank_view(bb),
        ) && r.1 == q + crate::pretty::pp_banks(banks).len() + 1,
    decreases banks.len(),
{
    reveal(crate::dsl::sp_banks_tail);
    crate::dsl::lemma_skip_ws_bounds(s, i);
    reveal_strlit("}");
    reveal_strlit("\n");
    let f = |bb: crate::component::MemoryBank| crate::dsl::bank_view(bb);
    let tt = crate::pretty::pp_banks(banks) + "}"@;
    if banks.len() == 0 {
        assert(crate::pretty::pp_banks(banks) =~= Seq::<char>::empty());
        assert(tt =~= "}"@);
        lemma_text_subrange(s, q, tt, 0, 1);
        assert(tt.subrange(0, 1) =~= "}"@);
        lemma_rt_lit(s, i, "}"@);
        assert(banks.map_values(f) =~= Seq::<crate::dsl::BankModel>::empty());
    } else {
        let b0 = banks.first();
        let ppb = crate::pretty::pp_bank(b0, 1);
        let rest = banks.drop_first();
        let tr = crate::pretty::pp_banks(rest) + "}"@;
        lemma_pp_bank_shape(b0);
        assert(crate::pretty::pp_banks(banks) == ppb + "\n"@ + crate::pretty::pp_banks(rest));
        assert(tt =~= ppb + "\n"@ + tr);
        lemma_text_index(s, q, tt, 4);
        assert(tt[4] == ppb[4]);
        assert(ppb[4] == ppb.subrange(4, 8)[0]);
        assert(s[q + 4] == 'b') by {
            reveal_strlit("bank");
        }
        assert(crate::dsl::sp_lit(s, i, "}"@) is Err) by {
            if crate::dsl::sp_lit(s, i, "}"@) is Ok {
                assert(lit_at(s, q + 4, "}"@));
                assert(s.subrange(q + 4, q + 5)[0] == '}');
            }
        }
        lemma_text_subrange(s, q, tt, 0, ppb.len() as int);
        assert(tt.subrange(0, ppb.len() as int) =~= ppb);
        lemma_rt_bank(s, i, q, b0);
        let p1 = q + ppb.len() - 1;
        let q2 = q + ppb.len() + 1;
        lemma_text_index(s, q, tt, ppb.len() - 1);
        assert(tt[ppb.len() - 1] == ppb[ppb.len() - 1]);
        assert(is_ws(s[p1]));
        lemma_text_index(s, q, tt, ppb.len() as int);
        assert(is_ws(s[q + ppb.len()]));
        lemma_text_subrange(s, q, tt, ppb.len() as int + 1, tt.len() as int);
        assert(tt.subrange(ppb.len() as int + 1, tt.len() as int) =~= tr);
        if rest.len() > 0 {
            let b1 = rest.first();
            lemma_pp_bank_shape(b1);
            assert(crate::pretty::pp_banks(rest) == crate::pretty::pp_bank(b1, 1) + "\n"@
                + crate::pretty::pp_banks(rest.drop_first()));
            assert forall|k: int| p1 <= k < q2 + 4 implies is_ws(#[trigger] s[k]) by {
                if k >= q2 {
                    lemma_text_index(s, q2, tr, k - q2);
                    assert(tr[k - q2] == crate::pretty::pp_bank(b1, 1)[k - q2]);
                } else {
                    lemma_text_index(s, q, tt, k - q);
                }
            }
            lemma_text_index(s, q2, tr, 4);
            assert(tr[4] == crate::pretty::pp_bank(b1, 1)[4]);
            assert(crate::pretty::pp_bank(b1, 1)[4] == crate::pretty::pp_bank(b1, 1).subrange(
                4,
                8,
            )[0]);
            assert(s[q2 + 4] == 'b') by {
                reveal_strlit("bank");
            }
            lemma_skip_ws_run(s, p1, q2 + 4);
        } else {
            assert(crate::pretty::pp_banks(rest) =~= Seq::<char>::empty());
            lemma_text_index(s, q2, tr, 0);
            assert(tr[0] == '}');
            assert forall|k: int| p1 <= k < q2 implies is_ws(#[trigger] s[k]) by {
                lemma_text_index(s, q, tt, k - q);
            }
            lemma_skip_ws_run(s, p1, q2);
        }
        lemma_rt_banks_tail(s, p1, q2, rest);
        assert(banks.map_values(f) =~= seq![crate::dsl::bank_view(b0)] + rest.map_values(f));
    }
}

/// The header tokens of a printed component.
#[verifier::rlimit(100)]
#[verifier::spinoff_prover]
proof fn lemma_rt_component_header(c: crate::component::Component)
    requires
        printable_component(c),
    ensures
        ({
            let s = crate::pretty::pp_component(c);
            let a = dec_str(c.width as nat).len() as int;
            let b = dec_str(c.size as nat).len() as int;
            &&& s.len() == 14 + a + b + crate::pretty::pp_banks(c.banks@).len()
            &&& sp_lit(s, 0, "memory"@) == Ok::<int, int>(6)
            &&& sp_lit(s, 6, "<"@) == Ok::<int, int>(7)
            &&& sp_num(s, 7) == Ok::<(u64, int), int>((c.width, 7 + a))
            &&& sp_lit(s, 7 + a, ","@) == Ok::<int, int>(8 + a)
            &&& sp_num(s, 8 + a) == Ok::<(u64, int), int>((c.size, 8 + a + b))
            &&& sp_lit(s, 8 + a + b, ">"@) == Ok::<int, int>(9 + a + b)
            &&& sp_lit(s, 9 + a + b, "{"@) == Ok::<int, int>(11 + a + b)
            &&& s[11 + a + b] == '\n'
        }),
{
    let s = crate::pretty::pp_component(c);
    let dw = dec_str(c.width as nat);
    let ds = dec_str(c.size as nat);
    let a = dw.len() as int;
    let b = ds.len() as int;
    reveal_strlit("memory");
    reveal_strlit("memory<");
    reveal_strlit("<");
    reveal_strlit(",");
    reveal_strlit(">");
    reveal_strlit("{");
    reveal_strlit("> {\n");
    reveal_strlit("}\n");
    lemma_dec_str_digits(c.width as nat);
    lemma_dec_str_digits(c.size as nat);
    assert(s.subrange(0, s.len() as int) =~= s);
    assert(s[0] == 'm');
    lemma_skip_ws_run(s, 0, 0);
    assert(s.subrange(0, 6) =~= "memory"@);
    lemma_rt_lit(s, 0, "memory"@);
    assert(s[6] == '<');
    lemma_skip_ws_run(s, 6, 6);
    assert(s.subrange(6, 7) =~= "<"@);
    lemma_rt_lit(s, 6, "<"@);
    assert(s[7] == dw[0]);
    lemma_skip_ws_run(s, 7, 7);
    assert(s.subrange(7, 7 + a) =~= dw);
    assert(s[7 + a] == ',');
    lemma_rt_num(s, 7, c.width);
    lemma_skip_ws_run(s, 7 + a, 7 + a);
    assert(s.subrange(7 + a, 8 + a) =~= ","@);
    lemma_rt_lit(s, 7 + a, ","@);
    assert(s[8 + a] == ds[0]);
    lemma_skip_ws_run(s, 8 + a, 8 + a);
    assert(s.subrange(8 + a, 8 + a + b) =~= ds);
    assert(s[8 + a + b] == '>');
    lemma_rt_num(s, 8 + a, c.size);
    lemma_skip_ws_run(s, 8 + a + b, 8 + a + b);
    assert(s.subrange(8 + a + b, 9 + a + b) =~= ">"@);
    lemma_rt_lit(s, 8 + a + b, ">"@);
    let p5 = 9 + a + b;
    assert(s[p5] == ' ' && s[p5 + 1] == '{');
    lemma_skip_ws_run(s, p5, p5 + 1);
    assert(s.subrange(p5 + 1, p5 + 2) =~= "{"@);
    lemma_rt_lit(s, p5, "{"@);
    assert(s[11 + a + b] == '\n');
    assert(s.len() == 14 + a + b + crate::pretty::pp_banks(c.banks@).len());
}

/// The placement of the bank list inside a printed component.
#[verifier::rlimit(100)]
#[verifier::spinoff_prover]
proof fn lemma_rt_component_banks_site(c: crate::component::Component)
    requires
        printable_component(c),
    ensures
        ({
            let s = crate::pretty::pp_component(c);
            let a = dec_str(c.width as nat).len() as int;
            let b = dec_str(c.size as nat).len() as int;
            let pb = crate::pretty::pp_banks(c.banks@).len() as int;
            let q = 12 + a + b;
            &&& s.subrange(q, q + pb + 1) == crate::pretty::pp_banks(c.banks@) + "}"@
            &&& skip_ws(s, 11 + a + b) == q + 4
            &&& skip_ws(s, q + pb + 1) == s.len()
        }),
{
    let s = crate::pretty::pp_component(c);
    let a = dec_str(c.width as nat).len() as int;
    let b = dec_str(c.size as nat).len() as int;
    let pb = crate::pretty::pp_banks(c.banks@).len() as int;
    let p6 = 11 + a + b;
    let q = 12 + a + b;
    reveal_strlit("}");
    reveal_strlit("}\n");
    reveal_strlit("> {\n");
    reveal_strlit("memory<");
    reveal_strlit(",");
    lemma_dec_str_digits(c.width as nat);
    lemma_dec_str_digits(c.size as nat);
    assert(s.len() == 14 + a + b + pb);
    assert(s.subrange(0, s.len() as int) =~= s);
    assert forall|x: int| 0 <= x < pb + 1 implies s.subrange(q, q + pb + 1)[x] == (
    crate::pretty::pp_banks(c.banks@) + "}"@)[x] by {
        assert(s[q + x] == (crate::pretty::pp_banks(c.banks@) + "}"@)[x]);
    }
    assert(s.subrange(q, q + pb + 1) =~= crate::pretty::pp_banks(c.banks@) + "}"@);
    let b0 = c.banks@.first();
    lemma_pp_bank_shape(b0);
    assert(crate::pretty::pp_banks(c.banks@) == crate::pretty::pp_bank(b0, 1) + "\n"@
        + crate::pretty::pp_banks(c.banks@.drop_first()));
    assert(s[p6] == '\n');
    assert forall|k: int| p6 <= k < q + 4 implies is_ws(#[trigger] s[k]) by {
        if k >= q {
            lemma_text_index(s, q, crate::pretty::pp_banks(c.banks@) + "}"@, k - q);
            assert((crate::pretty::pp_banks(c.banks@) + "}"@)[k - q] == crate::pretty::pp_bank(
                b0,
                1,
            )[k - q]);
        }
    }
    lemma_text_index(s, q, crate::pretty::pp_banks(c.banks@) + "}"@, 4);
    assert((crate::pretty::pp_banks(c.banks@) + "}"@)[4] == crate::pretty::pp_bank(b0, 1)[4]);
    assert(crate::pretty::pp_bank(b0, 1)[4] == crate::pretty::pp_bank(b0, 1).subrange(4, 8)[0]);
    assert(s[q + 4] == 'b') by {
        reveal_strlit("bank");
    }
    lemma_skip_ws_run(s, p6, q + 4);
    let p7 = q + pb + 1;
    assert(p7 == s.len() - 1);
    assert(s[p7] == '\n');
    lemma_skip_ws_run(s, p7, s.len() as int);
}

/// Reading a whole printed component yields the component back.
#[verifier::rlimit(100)]
#[verifier::spinoff_prover]
proof fn lemma_rt_component(c: crate::component::Component)
    requires
        printable_component(c),
    ensures
        crate::dsl::sp_component(crate::pretty::pp_component(c)) matches Ok(cm) && cm
            == crate::dsl::component_view(c),
{
    reveal(crate::dsl::sp_component);
    let s = crate::pretty::pp_component(c);
    let a = dec_str(c.width as nat).len() as int;
    let b = dec_str(c.size as nat).len() as int;
    let pb = crate::pretty::pp_banks(c.banks@).len() as int;
    lemma_rt_component_header(c);
    lemma_rt_component_banks_site(c);
    let p6 = 11 + a + b;
    let q = 12 + a + b;
    lemma_rt_banks_tail(s, p6, q, c.banks@);
    assert(crate::dsl::component_view(c) =~~= crate::dsl::ComponentModel {
        width: c.width,
        size: c.size,
        banks: c.banks@.map_values(|bb: crate::component::MemoryBank| crate::dsl::bank_view(bb)),
    });
}

/// The author dialect inverts its pretty printer: every printable
/// component — switch blocks, terminal sequences and multi-range layouts
/// included — reads back from its rendered text as itself.
pub proof fn lemma_parse_inverts_pretty(c: crate::component::Component)
    requires
        printable_component(c),
    ensures
        crate::dsl::sp_component(crate::pretty::pp_component(c)) matches Ok(cm) && cm
            == crate::dsl::component_view(c),
{
    lemma_rt_component(c);
}

/// The partition reader inverts the range printer: a well-formed range
/// reads back from its rendered text as the single-range layout.
pub proof fn lemma_parse_partition_inverts(m: MemoryLayout)
    requires
        layout_wf(m),
    ensures
        crate::dsl::sp_partition_doc(pp_range(m)) == Ok::<Seq<MemoryLayout>, int>(seq![m]),
{
    reveal(crate::dsl::sp_partition_doc);
    reveal(crate::dsl::sp_layout);
    let s = pp_range(m);
    reveal_strlit("[");
    lemma_dec_str_digits(m->start as nat);
    assert(s.subrange(0, s.len() as int) =~= s);
    assert(s[0] == '[');
    lemma_skip_ws_run(s, 0, 0);
    assert(s[1] == dec_str(m->start as nat)[0]);
    assert(is_digit(s[1]) && !is_ws(s[1]) && s[1] != '[');
    lemma_skip_ws_run(s, 1, 1);
    lemma_rt_range(s, 0, m);
    lemma_skip_ws_run(s, s.len() as int, s.len() as int);
}

/// The translation reader inverts the terminal printer: a terminal
/// transform reads back from its rendered text as itself.
pub proof fn lemma_parse_translation_inverts(t: TerminalRoutingProgram)
    requires
        !(t is RShift) || t->RShift_0 <= usize::MAX,
    ensures
        crate::dsl::sp_translation_doc(pp_terminal(t)) == Ok::<TerminalRoutingProgram, int>(t),
{
    reveal(crate::dsl::sp_translation_doc);
    let s = pp_terminal(t);
    lemma_pp_terminal_first(t);
    assert(s.subrange(0, s.len() as int) =~= s);
    lemma_skip_ws_run(s, 0, 0);
    lemma_rt_terminal(s, 0, t);
    lemma_skip_ws_run(s, s.len() as int, s.len() as int);
}


} // verus!
