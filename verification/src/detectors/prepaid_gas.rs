//! prepaid_gas: does an `ft_transfer_call` implementation compare the
//! prepaid gas (a gas-limit guard)?
//!
//! Output lines: `funcname@True` or `funcname@False`.
use vstd::prelude::*;
use crate::ir::{FunctionRef, InstructionRef, Module, all_instructions, fn_insts};
use crate::output::{TmpWriter, bool_line};
use crate::patterns::{ft_transfer_call_trait, is_match, partial_ord, pattern_matches};
use crate::callgraph::{has_user_loc, inst_calls, is_inst_call_func, user_loc};
use crate::users::{users_of, users_spec};
use super::common::{concat_upto, lemma_concat_upto_step, module_lines};
use super::unregistered_receiver::ft_transfer_call_trait_pattern;

verus! {

pub open spec fn prepaid_gas_pattern() -> Seq<char> {
    r"near_sdk[0-9]+environment[0-9]+env[0-9]+prepaid_gas"@
}

pub open spec fn partial_ord_pattern() -> Seq<char> {
    r"core[0-9]+cmp[0-9]+PartialOrd"@
}

/// `v` reads the prepaid gas in user code, and a `PartialOrd` comparison is
/// among the transitive users of the result.
pub open spec fn gas_compared_at(m: &Module, v: int) -> bool {
    user_loc(m, v) && inst_calls(m, v, prepaid_gas_pattern()) && exists|u: int|
        0 <= u < m.values@.len() && #[trigger] users_spec(m, v, false, false)[u] && inst_calls(m, u, partial_ord_pattern())
}

/// The line recorded for function `f`.
pub open spec fn prepaid_gas_fn(m: &Module, f: int) -> Seq<Seq<char>> {
    let is = fn_insts(m, f);
    if !pattern_matches(ft_transfer_call_trait_pattern(), m.function_name(f)) {
        Seq::empty()
    } else {
        seq![bool_line(
            m.function_name(f),
            exists|k: int| 0 <= k < is.len() && #[trigger] gas_compared_at(m, is[k] as int),
        )]
    }
}

fn gas_compared_at_exec(m: &Module, inst: &InstructionRef, re_prepaid: &str, re_ord: &str) -> (r: bool)
    requires
        m.wf(),
        inst.0 < m.values@.len(),
        re_prepaid@ == prepaid_gas_pattern(),
        re_ord@ == partial_ord_pattern(),
    ensures
        r == gas_compared_at(m, inst.0 as int),
{
    if !has_user_loc(m, inst) || !is_inst_call_func(m, inst, re_prepaid) {
        return false;
    }
    let set = users_of(m, inst.0, false, false);
    let n = set.len();
    for u in 0..n
        invariant
            m.wf(),
            inst.0 < m.values@.len(),
            re_ord@ == partial_ord_pattern(),
            n == m.values@.len(),
            set@ == users_spec(m, inst.0 as int, false, false),
            set@.len() == n,
            user_loc(m, inst.0 as int),
            inst_calls(m, inst.0 as int, prepaid_gas_pattern()),
            forall|j: int| 0 <= j < u ==> !(#[trigger] users_spec(m, inst.0 as int, false, false)[j]
                && inst_calls(m, j, partial_ord_pattern())),
    {
        if set[u] && is_inst_call_func(m, &InstructionRef(u), re_ord) {
            return true;
        }
    }
    false
}

fn prepaid_gas_in(m: &Module, f: usize, w: &mut TmpWriter)
    requires
        m.wf(),
        f < m.functions@.len(),
    ensures
        final(w).lines_view() == old(w).lines_view() + prepaid_gas_fn(m, f as int),
        final(w).detector == old(w).detector,
{
    let func = FunctionRef(f);
    assert(old(w).lines_view() + Seq::<Seq<char>>::empty() =~= old(w).lines_view());
    if !is_match(ft_transfer_call_trait(), func.name(m)) {
        return;
    }
    let re_prepaid = crate::patterns::prepaid_gas();
    let re_ord = partial_ord();
    let insts = all_instructions(m, &func);
    let ghost is = fn_insts(m, f as int);
    let n = insts.len();
    let mut has_check = false;
    for k in 0..n
        invariant
            m.wf(),
            re_prepaid@ == prepaid_gas_pattern(),
            re_ord@ == partial_ord_pattern(),
            n == insts@.len(),
            n == is.len(),
            is == fn_insts(m, f as int),
            forall|j: int| 0 <= j < n ==> (#[trigger] insts@[j]).0 == is[j],
            forall|j: int| 0 <= j < n ==> (#[trigger] insts@[j]).0 < m.values@.len(),
            has_check <==> exists|j: int| 0 <= j < k && #[trigger] gas_compared_at(m, is[j] as int),
    {
        let inst = &insts[k];
        assert(inst.0 == is[k as int]);
        if !has_check && gas_compared_at_exec(m, inst, re_prepaid, re_ord) {
            has_check = true;
        }
    }
    w.write_bool(func.name(m), has_check);
}

/// Records, for every `ft_transfer_call` implementation, whether it guards
/// the prepaid gas.
pub fn prepaid_gas(m: &Module, w: &mut TmpWriter)
    requires
        m.wf(),
    ensures
        final(w).lines_view() == old(w).lines_view() + module_lines(m, |f: int| prepaid_gas_fn(m, f)),
        final(w).detector == old(w).detector,
{
    let ghost per = |f: int| prepaid_gas_fn(m, f);
    let n = m.functions.len();
    for k in 0..n
        invariant
            m.wf(),
            n == m.functions@.len(),
            per == (|f: int| prepaid_gas_fn(m, f)),
            w.lines_view() == old(w).lines_view() + concat_upto(k as int, per),
            w.detector == old(w).detector,
    {
        prepaid_gas_in(m, k, w);
        proof {
            lemma_concat_upto_step(old(w).lines_view(), k as int, per);
        }
    }
}

} // verus!
