//! missing_owner_check: a function that transfers tokens or deploys code
//! without checking who calls it.
//!
//! Output lines: `funcname@file@line`, at the first such call in user code.
use vstd::prelude::*;
use crate::ir::{FunctionRef, InstructionRef, Module, all_instructions, fn_insts};
use crate::output::{TmpWriter, loc_line};
use crate::patterns::{is_lib_func, promise_batch_deploy, promise_transfer};
use crate::callgraph::{has_user_loc, inst_calls, is_inst_call_func, is_func_privileged, privileged, user_loc};
use crate::text::{contains, str_contains};
use super::common::{concat_upto, lemma_concat_upto_step, module_lines, is_lib_name, first_index, lemma_first_index, lemma_first_index_none, lemma_first_index_some};
use super::upgrade_owner_check::{closure_marker, deploy_pattern};
use super::transfer::promise_transfer_pattern;

verus! {

/// `v` is a transfer or a deploy call in user code.
pub open spec fn sensitive_call(m: &Module, v: int) -> bool {
    user_loc(m, v) && (inst_calls(m, v, promise_transfer_pattern()) || inst_calls(m, v, deploy_pattern()))
}

/// The position of the first sensitive call of `is`.
pub open spec fn first_sensitive(m: &Module, is: Seq<usize>) -> Option<int> {
    first_index(is.len() as int, |k: int| sensitive_call(m, is[k] as int))
}

/// The line recorded for function `f`.
pub open spec fn missing_owner_check_fn(m: &Module, f: int) -> Seq<Seq<char>> {
    let is = fn_insts(m, f);
    if is_lib_name(m, f) || contains(m.function_name(f), closure_marker()) {
        Seq::empty()
    } else {
        match first_sensitive(m, is) {
            Some(k) => if privileged(m, f) {
                Seq::empty()
            } else {
                seq![loc_line(
                    m.function_name(f),
                    m.debug_loc(is[k] as int).unwrap().filename@,
                    m.debug_loc(is[k] as int).unwrap().line as nat,
                )]
            },
            None => Seq::empty(),
        }
    }
}

fn first_sensitive_exec(m: &Module, insts: &Vec<InstructionRef>, f: usize) -> (r: Option<usize>)
    requires
        m.wf(),
        f < m.functions@.len(),
        insts@.len() == fn_insts(m, f as int).len(),
        forall|j: int| 0 <= j < insts@.len() ==> (#[trigger] insts@[j]).0 == fn_insts(m, f as int)[j],
        forall|j: int| 0 <= j < insts@.len() ==> (#[trigger] insts@[j]).0 < m.values@.len(),
    ensures
        match r {
            Some(j) => first_sensitive(m, fn_insts(m, f as int)) == Some(j as int) && j < insts@.len(),
            None => first_sensitive(m, fn_insts(m, f as int)) is None,
        },
{
    let re_transfer = promise_transfer();
    let re_deploy = promise_batch_deploy();
    let ghost is = fn_insts(m, f as int);
    let ghost p = |k: int| sensitive_call(m, is[k] as int);
    let n = insts.len();
    for k in 0..n
        invariant
            m.wf(),
            re_transfer@ == promise_transfer_pattern(),
            re_deploy@ == deploy_pattern(),
            n == insts@.len(),
            n == is.len(),
            is == fn_insts(m, f as int),
            p == (|k: int| sensitive_call(m, is[k] as int)),
            forall|j: int| 0 <= j < n ==> (#[trigger] insts@[j]).0 == is[j],
            forall|j: int| 0 <= j < n ==> (#[trigger] insts@[j]).0 < m.values@.len(),
            forall|j: int| 0 <= j < k ==> !#[trigger] p(j),
    {
        let inst = &insts[k];
        assert(inst.0 == is[k as int]);
        if has_user_loc(m, inst) && (is_inst_call_func(m, inst, re_transfer) || is_inst_call_func(m, inst, re_deploy)) {
            proof {
                lemma_first_index(n as int, p, k as int);
            }
            return Some(k);
        }
    }
    proof {
        lemma_first_index_none(n as int, p);
    }
    None
}

fn missing_owner_check_in(m: &Module, f: usize, w: &mut TmpWriter)
    requires
        m.wf(),
        f < m.functions@.len(),
    ensures
        final(w).lines_view() == old(w).lines_view() + missing_owner_check_fn(m, f as int),
        final(w).detector == old(w).detector,
{
    let func = FunctionRef(f);
    assert(old(w).lines_view() + Seq::<Seq<char>>::empty() =~= old(w).lines_view());
    proof {
        reveal_strlit("$closure$");
    }
    if is_lib_func(func.name(m)) || str_contains(func.name(m), "$closure$") {
        return;
    }
    let insts = all_instructions(m, &func);
    let j = match first_sensitive_exec(m, &insts, f) {
        Some(j) => j,
        None => {
            return;
        },
    };
    if is_func_privileged(m, &func) {
        return;
    }
    proof {
        lemma_first_index_some(fn_insts(m, f as int).len() as int, |k: int| sensitive_call(m, fn_insts(m, f as int)[k] as int));
    }
    let loc = insts[j].debug_loc(m).unwrap();
    w.write(func.name(m), loc.filename.as_str(), loc.line);
}

/// Records every function that transfers tokens or deploys code without an
/// owner check.
pub fn missing_owner_check(m: &Module, w: &mut TmpWriter)
    requires
        m.wf(),
    ensures
        final(w).lines_view() == old(w).lines_view() + module_lines(m, |f: int| missing_owner_check_fn(m, f)),
        final(w).detector == old(w).detector,
{
    let ghost per = |f: int| missing_owner_check_fn(m, f);
    let n = m.functions.len();
    for k in 0..n
        invariant
            m.wf(),
            n == m.functions@.len(),
            per == (|f: int| missing_owner_check_fn(m, f)),
            w.lines_view() == old(w).lines_view() + concat_upto(k as int, per),
            w.detector == old(w).detector,
    {
        missing_owner_check_in(m, k, w);
        proof {
            lemma_concat_upto_step(old(w).lines_view(), k as int, per);
        }
    }
}

} // verus!
