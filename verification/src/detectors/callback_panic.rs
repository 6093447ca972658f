//! callback_panic: a callback (it reads a promise result) that calls a plain
//! `unwrap`, which panics and rolls the callback back while the upstream
//! call stays committed.
//!
//! Output lines: `funcname@file@line`, at the function's first call in user
//! code.
use vstd::prelude::*;
use crate::ir::{FunctionRef, InstructionRef, Module, all_instructions, fn_insts};
use crate::output::{TmpWriter, loc_line};
use crate::patterns::{is_lib_func, plain_unwrap, promise_result};
use crate::callgraph::{has_user_loc, inst_calls, is_inst_call_func, user_loc};
use super::common::{some_call_to, concat_upto, lemma_concat_upto_step, module_lines, is_lib_name, first_index, lemma_first_index, lemma_first_index_none, lemma_first_index_some};
use super::reentrancy::promise_result_pattern;

verus! {

pub open spec fn plain_unwrap_pattern() -> Seq<char> {
    r"(core[0-9]+(option|result)[0-9]+unwrap_failed)|(core[0-9]+(option[0-9]+Option|result[0-9]+Result)\$.+[0-9]+unwrap[0-9]+)"@
}

/// The position of the first call of `is` in user code.
pub open spec fn first_user_call(m: &Module, is: Seq<usize>) -> Option<int> {
    first_index(is.len() as int, |k: int| m.is_call(is[k] as int) && user_loc(m, is[k] as int))
}

/// The line recorded for function `f`.
pub open spec fn callback_panic_fn(m: &Module, f: int) -> Seq<Seq<char>> {
    let is = fn_insts(m, f);
    if is_lib_name(m, f) || !some_call_to(m, is, promise_result_pattern()) || !some_call_to(m, is, plain_unwrap_pattern()) {
        Seq::empty()
    } else {
        match first_user_call(m, is) {
            Some(k) => seq![loc_line(
                m.function_name(f),
                m.debug_loc(is[k] as int).unwrap().filename@,
                m.debug_loc(is[k] as int).unwrap().line as nat,
            )],
            None => Seq::empty(),
        }
    }
}

fn callback_panic_in(m: &Module, f: usize, w: &mut TmpWriter)
    requires
        m.wf(),
        f < m.functions@.len(),
    ensures
        final(w).lines_view() == old(w).lines_view() + callback_panic_fn(m, f as int),
        final(w).detector == old(w).detector,
{
    let func = FunctionRef(f);
    assert(old(w).lines_view() + Seq::<Seq<char>>::empty() =~= old(w).lines_view());
    if is_lib_func(func.name(m)) {
        return;
    }
    let re_promise_result = promise_result();
    let re_plain_unwrap = plain_unwrap();
    let insts = all_instructions(m, &func);
    let ghost is = fn_insts(m, f as int);
    let ghost p = |k: int| m.is_call(is[k] as int) && user_loc(m, is[k] as int);
    let mut is_callback = false;
    let mut has_unwrap = false;
    let mut first_loc: Option<usize> = None;
    let n = insts.len();
    for k in 0..n
        invariant
            m.wf(),
            re_promise_result@ == promise_result_pattern(),
            re_plain_unwrap@ == plain_unwrap_pattern(),
            n == insts@.len(),
            n == is.len(),
            is == fn_insts(m, f as int),
            p == (|k: int| m.is_call(is[k] as int) && user_loc(m, is[k] as int)),
            forall|j: int| 0 <= j < n ==> (#[trigger] insts@[j]).0 == is[j],
            forall|j: int| 0 <= j < n ==> (#[trigger] insts@[j]).0 < m.values@.len(),
            is_callback <==> some_call_to(m, is.take(k as int), promise_result_pattern()),
            has_unwrap <==> some_call_to(m, is.take(k as int), plain_unwrap_pattern()),
            match first_loc {
                Some(j) => j < k && first_index(n as int, p) == Some(j as int),
                None => forall|j: int| 0 <= j < k ==> !#[trigger] p(j),
            },
    {
        let inst = &insts[k];
        assert(inst.0 == is[k as int]);
        assert forall|j: int| 0 <= j < k implies #[trigger] is.take(k + 1)[j] == is.take(k as int)[j] by {}
        assert(is.take(k + 1)[k as int] == is[k as int]);
        if inst.is_call(m) {
            if first_loc.is_none() && has_user_loc(m, inst) {
                proof {
                    lemma_first_index(n as int, p, k as int);
                }
                first_loc = Some(k);
            }
            if is_inst_call_func(m, inst, re_promise_result) {
                is_callback = true;
            }
            if is_inst_call_func(m, inst, re_plain_unwrap) {
                has_unwrap = true;
            }
        }
        assert(is_callback <==> some_call_to(m, is.take(k + 1), promise_result_pattern()));
        assert(has_unwrap <==> some_call_to(m, is.take(k + 1), plain_unwrap_pattern()));
    }
    assert(is.take(n as int) =~= is);
    if is_callback && has_unwrap {
        match first_loc {
            Some(j) => {
                proof {
                    lemma_first_index_some(n as int, p);
                }
                let loc = insts[j].debug_loc(m).unwrap();
                w.write(func.name(m), loc.filename.as_str(), loc.line);
            },
            None => {
                proof {
                    lemma_first_index_none(n as int, p);
                }
            },
        }
    }
}

/// Records every callback that calls a plain `unwrap`.
pub fn callback_panic(m: &Module, w: &mut TmpWriter)
    requires
        m.wf(),
    ensures
        final(w).lines_view() == old(w).lines_view() + module_lines(m, |f: int| callback_panic_fn(m, f)),
        final(w).detector == old(w).detector,
{
    let ghost per = |f: int| callback_panic_fn(m, f);
    let n = m.functions.len();
    for k in 0..n
        invariant
            m.wf(),
            n == m.functions@.len(),
            per == (|f: int| callback_panic_fn(m, f)),
            w.lines_view() == old(w).lines_view() + concat_upto(k as int, per),
            w.detector == old(w).detector,
    {
        callback_panic_in(m, k, w);
        proof {
            lemma_concat_upto_step(old(w).lines_view(), k as int, per);
        }
    }
}

} // verus!
