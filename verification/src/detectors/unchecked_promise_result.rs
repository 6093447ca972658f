//! unchecked_promise_result: a callback that reads a promise result but
//! never checks whether the promise succeeded.
//!
//! Output lines: `funcname@file@line`, at the first read of the result in
//! user code.
use vstd::prelude::*;
use crate::ir::{FunctionRef, Module, all_instructions, fn_insts};
use crate::output::{TmpWriter, loc_line};
use crate::patterns::{is_lib_func, promise_result_access, promise_result_check};
use crate::callgraph::{has_user_loc, inst_calls, is_inst_call_func, user_loc};
use super::common::{some_call_to, concat_upto, lemma_concat_upto_step, module_lines, is_lib_name, first_index, lemma_first_index, lemma_first_index_none, lemma_first_index_some};

verus! {

pub open spec fn access_pattern() -> Seq<char> {
    r"near_sdk[0-9]+environment[0-9]+env[0-9]+(promise_result|promise_results_count)[0-9]+"@
}

pub open spec fn check_pattern() -> Seq<char> {
    r"near_sdk[0-9]+utils[0-9]+(is_promise_success|promise_result_as_success)[0-9]+"@
}

/// The position of the first read of a promise result in user code.
pub open spec fn first_access(m: &Module, is: Seq<usize>) -> Option<int> {
    first_index(
        is.len() as int,
        |k: int| m.is_call(is[k] as int) && inst_calls(m, is[k] as int, access_pattern()) && user_loc(m, is[k] as int),
    )
}

/// The line recorded for function `f`.
pub open spec fn unchecked_promise_result_fn(m: &Module, f: int) -> Seq<Seq<char>> {
    let is = fn_insts(m, f);
    if is_lib_name(m, f) || some_call_to(m, is, check_pattern()) {
        Seq::empty()
    } else {
        match first_access(m, is) {
            Some(k) => seq![loc_line(
                m.function_name(f),
                m.debug_loc(is[k] as int).unwrap().filename@,
                m.debug_loc(is[k] as int).unwrap().line as nat,
            )],
            None => Seq::empty(),
        }
    }
}

fn unchecked_promise_result_in(m: &Module, f: usize, w: &mut TmpWriter)
    requires
        m.wf(),
        f < m.functions@.len(),
    ensures
        final(w).lines_view() == old(w).lines_view() + unchecked_promise_result_fn(m, f as int),
        final(w).detector == old(w).detector,
{
    let func = FunctionRef(f);
    assert(old(w).lines_view() + Seq::<Seq<char>>::empty() =~= old(w).lines_view());
    if is_lib_func(func.name(m)) {
        return;
    }
    let re_access = promise_result_access();
    let re_check = promise_result_check();
    let insts = all_instructions(m, &func);
    let ghost is = fn_insts(m, f as int);
    let ghost p = |k: int| m.is_call(is[k] as int) && inst_calls(m, is[k] as int, access_pattern()) && user_loc(m, is[k] as int);
    let mut has_check = false;
    let mut access_loc: Option<usize> = None;
    let n = insts.len();
    for k in 0..n
        invariant
            m.wf(),
            re_access@ == access_pattern(),
            re_check@ == check_pattern(),
            n == insts@.len(),
            n == is.len(),
            is == fn_insts(m, f as int),
            p == (|k: int| m.is_call(is[k] as int) && inst_calls(m, is[k] as int, access_pattern()) && user_loc(m, is[k] as int)),
            forall|j: int| 0 <= j < n ==> (#[trigger] insts@[j]).0 == is[j],
            forall|j: int| 0 <= j < n ==> (#[trigger] insts@[j]).0 < m.values@.len(),
            has_check <==> some_call_to(m, is.take(k as int), check_pattern()),
            match access_loc {
                Some(j) => j < k && first_index(n as int, p) == Some(j as int),
                None => forall|j: int| 0 <= j < k ==> !#[trigger] p(j),
            },
    {
        let inst = &insts[k];
        assert(inst.0 == is[k as int]);
        assert forall|j: int| 0 <= j < k implies #[trigger] is.take(k + 1)[j] == is.take(k as int)[j] by {}
        assert(is.take(k + 1)[k as int] == is[k as int]);
        if inst.is_call(m) {
            if is_inst_call_func(m, inst, re_check) {
                has_check = true;
            }
            if access_loc.is_none() && is_inst_call_func(m, inst, re_access) && has_user_loc(m, inst) {
                proof {
                    lemma_first_index(n as int, p, k as int);
                }
                access_loc = Some(k);
            }
        }
        assert(has_check <==> some_call_to(m, is.take(k + 1), check_pattern()));
    }
    assert(is.take(n as int) =~= is);
    if has_check {
        return;
    }
    match access_loc {
        Some(j) => {
            proof {
                lemma_first_index_some(n as int, p);
            }
            let loc = insts[j].debug_loc(m).unwrap();
            w.write(func.name(m), loc.filename.as_str(), loc.line);
        },
        None => {
            proof {
                lemma_first_index_none(n as int, p);
            }
        },
    }
}

/// Records every function that reads a promise result and never checks the
/// promise succeeded.
pub fn unchecked_promise_result(m: &Module, w: &mut TmpWriter)
    requires
        m.wf(),
    ensures
        final(w).lines_view() == old(w).lines_view() + module_lines(m, |f: int| unchecked_promise_result_fn(m, f)),
        final(w).detector == old(w).detector,
{
    let ghost per = |f: int| unchecked_promise_result_fn(m, f);
    let n = m.functions.len();
    for k in 0..n
        invariant
            m.wf(),
            n == m.functions@.len(),
            per == (|f: int| unchecked_promise_result_fn(m, f)),
            w.lines_view() == old(w).lines_view() + concat_upto(k as int, per),
            w.detector == old(w).detector,
    {
        unchecked_promise_result_in(m, k, w);
        proof {
            lemma_concat_upto_step(old(w).lines_view(), k as int, per);
        }
    }
}

} // verus!
