//! storage_gas: does a function that grows storage (`insert`/`extend` on a
//! NEAR collection) check `storage_usage`, itself or in a caller up to two
//! levels up?
//!
//! Output lines: `funcname@True` or `funcname@False`.
use vstd::prelude::*;
use crate::ir::{FunctionRef, Module, all_instructions, fn_insts};
use crate::output::{TmpWriter, bool_line};
use crate::patterns::{is_lib_func, storage_expansion, storage_usage};
use crate::callgraph::{calls_from, caller_within, find_function_callers, func_calls_func_rec, has_user_loc, inst_calls, is_inst_call_func, llvm_prefix, user_loc};
use crate::text::starts_with;
use super::common::{user_call_to, concat_upto, lemma_concat_upto_step, module_lines, is_lib_name};

verus! {

pub open spec fn expansion_pattern() -> Seq<char> {
    r"near_sdk[0-9]+collections[0-9]+.+(insert|extend)"@
}

pub open spec fn usage_pattern() -> Seq<char> {
    r"near_sdk[0-9]+environment[0-9]+env[0-9]+storage_usage[0-9]+"@
}

/// Function `g` calls `storage_usage`, directly or transitively (as
/// `func_calls_func_rec` decides it).
pub open spec fn checks_usage(m: &Module, g: int) -> bool {
    !starts_with(m.function_name(g), llvm_prefix()) && m.function_name(g).len() != 0
        && calls_from(m, g, usage_pattern())
}

/// `f`, or one of its callers up to two levels up, checks `storage_usage`.
pub open spec fn gas_checked(m: &Module, f: int) -> bool {
    checks_usage(m, f) || exists|g: int|
        0 <= g < m.functions@.len() && #[trigger] near_callers(m, f)[g] && checks_usage(m, g)
}

/// The callers of `f` up to two levels up, one mark per function.
pub open spec fn near_callers(m: &Module, f: int) -> Seq<bool> {
    Seq::new(m.functions@.len(), |h: int| caller_within(m, f, h, 2))
}

/// The line recorded for function `f`.
pub open spec fn storage_gas_fn(m: &Module, f: int) -> Seq<Seq<char>> {
    if is_lib_name(m, f) || !user_call_to(m, fn_insts(m, f), expansion_pattern()) {
        Seq::empty()
    } else {
        seq![bool_line(m.function_name(f), gas_checked(m, f))]
    }
}

fn has_user_call_to(m: &Module, func: &FunctionRef, pattern: &str) -> (r: bool)
    requires
        m.wf(),
        func.0 < m.functions@.len(),
    ensures
        r == user_call_to(m, fn_insts(m, func.0 as int), pattern@),
{
    let insts = all_instructions(m, func);
    let ghost is = fn_insts(m, func.0 as int);
    let n = insts.len();
    for k in 0..n
        invariant
            m.wf(),
            n == insts@.len(),
            n == is.len(),
            is == fn_insts(m, func.0 as int),
            forall|j: int| 0 <= j < n ==> (#[trigger] insts@[j]).0 == is[j],
            forall|j: int| 0 <= j < n ==> (#[trigger] insts@[j]).0 < m.values@.len(),
            forall|j: int| 0 <= j < k ==> !(user_loc(m, is[j] as int) && #[trigger] inst_calls(m, is[j] as int, pattern@)),
    {
        let inst = &insts[k];
        assert(inst.0 == is[k as int]);
        if has_user_loc(m, inst) && is_inst_call_func(m, inst, pattern) {
            return true;
        }
    }
    false
}

fn gas_checked_exec(m: &Module, func: &FunctionRef, usage: &str) -> (r: bool)
    requires
        m.wf(),
        func.0 < m.functions@.len(),
        usage@ == usage_pattern(),
    ensures
        r == gas_checked(m, func.0 as int),
{
    if func_calls_func_rec(m, func, usage) {
        return true;
    }
    let callers = find_function_callers(m, func, 2);
    let n = callers.len();
    for g in 0..n
        invariant
            m.wf(),
            usage@ == usage_pattern(),
            n == m.functions@.len(),
            callers@ == near_callers(m, func.0 as int),
            callers@.len() == n,
            !checks_usage(m, func.0 as int),
            forall|j: int| 0 <= j < g ==> !(#[trigger] callers@[j] && checks_usage(m, j)),
    {
        if callers[g] && func_calls_func_rec(m, &FunctionRef(g), usage) {
            return true;
        }
    }
    false
}

fn storage_gas_in(m: &Module, f: usize, w: &mut TmpWriter)
    requires
        m.wf(),
        f < m.functions@.len(),
    ensures
        final(w).lines_view() == old(w).lines_view() + storage_gas_fn(m, f as int),
        final(w).detector == old(w).detector,
{
    let func = FunctionRef(f);
    assert(old(w).lines_view() + Seq::<Seq<char>>::empty() =~= old(w).lines_view());
    if is_lib_func(func.name(m)) || !has_user_call_to(m, &func, storage_expansion()) {
        return;
    }
    let checked = gas_checked_exec(m, &func, storage_usage());
    w.write_bool(func.name(m), checked);
}

/// Records, for every function that grows storage, whether storage usage is
/// checked.
pub fn storage_gas(m: &Module, w: &mut TmpWriter)
    requires
        m.wf(),
    ensures
        final(w).lines_view() == old(w).lines_view() + module_lines(m, |f: int| storage_gas_fn(m, f)),
        final(w).detector == old(w).detector,
{
    let ghost per = |f: int| storage_gas_fn(m, f);
    let n = m.functions.len();
    for k in 0..n
        invariant
            m.wf(),
            n == m.functions@.len(),
            per == (|f: int| storage_gas_fn(m, f)),
            w.lines_view() == old(w).lines_view() + concat_upto(k as int, per),
            w.detector == old(w).detector,
    {
        storage_gas_in(m, k, w);
        proof {
            lemma_concat_upto_step(old(w).lines_view(), k as int, per);
        }
    }
}

} // verus!
