//! upgrade_func: functions that upgrade the contract in place: they deploy
//! code and call a function on it.
//!
//! Output lines: `funcname@file`, with the file of the first deploy call.
use vstd::prelude::*;
use crate::ir::{FunctionRef, Module, all_instructions, fn_insts};
use crate::output::{TmpWriter, func_file_line};
use crate::patterns::{is_lib_func, promise_batch_deploy, promise_batch_function_call};
use crate::callgraph::{has_user_loc, inst_calls, is_inst_call_func, user_loc};
use super::common::{user_call_to, concat_upto, lemma_concat_upto_step, module_lines, is_lib_name, first_index, lemma_first_index, lemma_first_index_none, lemma_first_index_some};
use super::upgrade_owner_check::{deploy_pattern, function_call_pattern};

verus! {

/// The position of the first deploy call in user code.
pub open spec fn first_deploy(m: &Module, is: Seq<usize>) -> Option<int> {
    first_index(is.len() as int, |k: int| user_loc(m, is[k] as int) && inst_calls(m, is[k] as int, deploy_pattern()))
}

/// The line recorded for function `f`.
pub open spec fn upgrade_func_fn(m: &Module, f: int) -> Seq<Seq<char>> {
    let is = fn_insts(m, f);
    if is_lib_name(m, f) || !user_call_to(m, is, deploy_pattern()) || !user_call_to(m, is, function_call_pattern()) {
        Seq::empty()
    } else {
        match first_deploy(m, is) {
            Some(k) => seq![func_file_line(m.function_name(f), m.debug_loc(is[k] as int).unwrap().filename@)],
            None => seq![func_file_line(m.function_name(f), Seq::empty())],
        }
    }
}

fn upgrade_func_in(m: &Module, f: usize, w: &mut TmpWriter) -> (found: bool)
    requires
        m.wf(),
        f < m.functions@.len(),
    ensures
        final(w).lines_view() == old(w).lines_view() + upgrade_func_fn(m, f as int),
        final(w).detector == old(w).detector,
        found == (upgrade_func_fn(m, f as int).len() > 0),
{
    let func = FunctionRef(f);
    assert(old(w).lines_view() + Seq::<Seq<char>>::empty() =~= old(w).lines_view());
    if is_lib_func(func.name(m)) {
        return false;
    }
    let re_deploy = promise_batch_deploy();
    let re_func_call = promise_batch_function_call();
    let insts = all_instructions(m, &func);
    let ghost is = fn_insts(m, f as int);
    let ghost p = |k: int| user_loc(m, is[k] as int) && inst_calls(m, is[k] as int, deploy_pattern());
    let mut call_deploy = false;
    let mut call_func_call = false;
    let mut first: Option<usize> = None;
    let n = insts.len();
    for k in 0..n
        invariant
            m.wf(),
            re_deploy@ == deploy_pattern(),
            re_func_call@ == function_call_pattern(),
            n == insts@.len(),
            n == is.len(),
            is == fn_insts(m, f as int),
            p == (|k: int| user_loc(m, is[k] as int) && inst_calls(m, is[k] as int, deploy_pattern())),
            forall|j: int| 0 <= j < n ==> (#[trigger] insts@[j]).0 == is[j],
            forall|j: int| 0 <= j < n ==> (#[trigger] insts@[j]).0 < m.values@.len(),
            call_deploy <==> user_call_to(m, is.take(k as int), deploy_pattern()),
            call_func_call <==> user_call_to(m, is.take(k as int), function_call_pattern()),
            match first {
                Some(j) => j < k && first_index(n as int, p) == Some(j as int),
                None => forall|j: int| 0 <= j < k ==> !#[trigger] p(j),
            },
    {
        let inst = &insts[k];
        assert(inst.0 == is[k as int]);
        assert forall|j: int| 0 <= j < k implies #[trigger] is.take(k + 1)[j] == is.take(k as int)[j] by {}
        assert(is.take(k + 1)[k as int] == is[k as int]);
        if has_user_loc(m, inst) {
            if is_inst_call_func(m, inst, re_deploy) {
                if first.is_none() {
                    proof {
                        lemma_first_index(n as int, p, k as int);
                    }
                    first = Some(k);
                }
                call_deploy = true;
            }
            if is_inst_call_func(m, inst, re_func_call) {
                call_func_call = true;
            }
        }
        assert(call_deploy <==> user_call_to(m, is.take(k + 1), deploy_pattern()));
        assert(call_func_call <==> user_call_to(m, is.take(k + 1), function_call_pattern()));
    }
    assert(is.take(n as int) =~= is);
    if !(call_deploy && call_func_call) {
        return false;
    }
    match first {
        Some(j) => {
            proof {
                lemma_first_index_some(n as int, p);
            }
            let loc = insts[j].debug_loc(m).unwrap();
            w.write_func_file(func.name(m), loc.filename.as_str());
        },
        None => {
            proof {
                lemma_first_index_none(n as int, p);
                reveal_strlit("");
            }
            w.write_func_file(func.name(m), "");
        },
    }
    true
}

/// Records every function that upgrades the contract in place; returns
/// whether there is one.
pub fn upgrade_func(m: &Module, w: &mut TmpWriter) -> (found: bool)
    requires
        m.wf(),
    ensures
        final(w).lines_view() == old(w).lines_view() + module_lines(m, |f: int| upgrade_func_fn(m, f)),
        final(w).detector == old(w).detector,
        found == (module_lines(m, |f: int| upgrade_func_fn(m, f)).len() > 0),
{
    let ghost per = |f: int| upgrade_func_fn(m, f);
    let n = m.functions.len();
    let mut found = false;
    for k in 0..n
        invariant
            m.wf(),
            n == m.functions@.len(),
            per == (|f: int| upgrade_func_fn(m, f)),
            w.lines_view() == old(w).lines_view() + concat_upto(k as int, per),
            w.detector == old(w).detector,
            found == (concat_upto(k as int, per).len() > 0),
    {
        if upgrade_func_in(m, k, w) {
            found = true;
        }
        proof {
            lemma_concat_upto_step(old(w).lines_view(), k as int, per);
            assert(concat_upto(k + 1, per) == concat_upto(k as int, per) + per(k as int));
        }
    }
    found
}

} // verus!
