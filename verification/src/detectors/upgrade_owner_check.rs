//! upgrade_owner_check: an upgrade function (it deploys code and calls a
//! function on the new code) that does not check who calls it.
//!
//! Output lines: `funcname@file@line`, at the function's first instruction in
//! user code.
use vstd::prelude::*;
use crate::ir::{FunctionRef, Module, all_instructions, fn_insts};
use crate::output::{TmpWriter, loc_line};
use crate::patterns::{is_lib_func, promise_batch_deploy, promise_batch_function_call};
use crate::callgraph::{has_user_loc, inst_calls, is_inst_call_func, is_func_privileged, privileged, user_loc};
use crate::text::{contains, str_contains};
use super::common::{user_call_to, concat_upto, lemma_concat_upto_step, module_lines, is_lib_name, first_index, lemma_first_index, lemma_first_index_none, lemma_first_index_some};

verus! {

pub open spec fn deploy_pattern() -> Seq<char> {
    r"promise_batch_action_deploy_contract"@
}

pub open spec fn function_call_pattern() -> Seq<char> {
    r"promise_batch_action_function_call"@
}

pub open spec fn closure_marker() -> Seq<char> {
    "$closure$"@
}

/// The position of the first instruction of `is` in user code.
pub open spec fn first_user_inst(m: &Module, is: Seq<usize>) -> Option<int> {
    first_index(is.len() as int, |k: int| user_loc(m, is[k] as int))
}

/// The line recorded for function `f`.
pub open spec fn upgrade_owner_check_fn(m: &Module, f: int) -> Seq<Seq<char>> {
    let is = fn_insts(m, f);
    if is_lib_name(m, f) || contains(m.function_name(f), closure_marker())
        || !user_call_to(m, is, deploy_pattern()) || !user_call_to(m, is, function_call_pattern())
        || privileged(m, f) {
        Seq::empty()
    } else {
        match first_user_inst(m, is) {
            Some(k) => seq![loc_line(
                m.function_name(f),
                m.debug_loc(is[k] as int).unwrap().filename@,
                m.debug_loc(is[k] as int).unwrap().line as nat,
            )],
            None => seq![loc_line(m.function_name(f), Seq::empty(), 0)],
        }
    }
}

fn upgrade_owner_check_in(m: &Module, f: usize, w: &mut TmpWriter)
    requires
        m.wf(),
        f < m.functions@.len(),
    ensures
        final(w).lines_view() == old(w).lines_view() + upgrade_owner_check_fn(m, f as int),
        final(w).detector == old(w).detector,
{
    let func = FunctionRef(f);
    assert(old(w).lines_view() + Seq::<Seq<char>>::empty() =~= old(w).lines_view());
    proof {
        reveal_strlit("$closure$");
    }
    if is_lib_func(func.name(m)) || str_contains(func.name(m), "$closure$") {
        return;
    }
    let re_deploy = promise_batch_deploy();
    let re_func_call = promise_batch_function_call();
    let insts = all_instructions(m, &func);
    let ghost is = fn_insts(m, f as int);
    let ghost p = |k: int| user_loc(m, is[k] as int);
    let mut call_deploy = false;
    let mut call_func_call = false;
    let mut first_loc: Option<usize> = None;
    let n = insts.len();
    for k in 0..n
        invariant
            m.wf(),
            re_deploy@ == deploy_pattern(),
            re_func_call@ == function_call_pattern(),
            n == insts@.len(),
            n == is.len(),
            is == fn_insts(m, f as int),
            p == (|k: int| user_loc(m, is[k] as int)),
            forall|j: int| 0 <= j < n ==> (#[trigger] insts@[j]).0 == is[j],
            forall|j: int| 0 <= j < n ==> (#[trigger] insts@[j]).0 < m.values@.len(),
            call_deploy <==> user_call_to(m, is.take(k as int), deploy_pattern()),
            call_func_call <==> user_call_to(m, is.take(k as int), function_call_pattern()),
            match first_loc {
                Some(j) => j < k && first_index(n as int, p) == Some(j as int),
                None => forall|j: int| 0 <= j < k ==> !#[trigger] p(j),
            },
    {
        let inst = &insts[k];
        assert(inst.0 == is[k as int]);
        assert forall|j: int| 0 <= j < k implies #[trigger] is.take(k + 1)[j] == is.take(k as int)[j] by {}
        assert(is.take(k + 1)[k as int] == is[k as int]);
        if has_user_loc(m, inst) {
            if first_loc.is_none() {
                proof {
                    lemma_first_index(n as int, p, k as int);
                }
                first_loc = Some(k);
            }
            if is_inst_call_func(m, inst, re_deploy) {
                call_deploy = true;
            }
            if is_inst_call_func(m, inst, re_func_call) {
                call_func_call = true;
            }
        }
        assert(call_deploy <==> user_call_to(m, is.take(k + 1), deploy_pattern()));
        assert(call_func_call <==> user_call_to(m, is.take(k + 1), function_call_pattern()));
    }
    assert(is.take(n as int) =~= is);
    if !(call_deploy && call_func_call) {
        return;
    }
    if is_func_privileged(m, &func) {
        return;
    }
    match first_loc {
        Some(j) => {
            proof {
                lemma_first_index_some(n as int, p);
            }
            let loc = insts[j].debug_loc(m).unwrap();
            w.write(func.name(m), loc.filename.as_str(), loc.line);
        },
        None => {
            proof {
                lemma_first_index_none(n as int, p);
                reveal_strlit("");
            }
            w.write(func.name(m), "", 0);
        },
    }
}

/// Records every upgrade function that does not check its caller.
pub fn upgrade_owner_check(m: &Module, w: &mut TmpWriter)
    requires
        m.wf(),
    ensures
        final(w).lines_view() == old(w).lines_view() + module_lines(m, |f: int| upgrade_owner_check_fn(m, f)),
        final(w).detector == old(w).detector,
{
    let ghost per = |f: int| upgrade_owner_check_fn(m, f);
    let n = m.functions.len();
    for k in 0..n
        invariant
            m.wf(),
            n == m.functions@.len(),
            per == (|f: int| upgrade_owner_check_fn(m, f)),
            w.lines_view() == old(w).lines_view() + concat_upto(k as int, per),
            w.detector == old(w).detector,
    {
        upgrade_owner_check_in(m, k, w);
        proof {
            lemma_concat_upto_step(old(w).lines_view(), k as int, per);
        }
    }
}

} // verus!
