//! unhandled_promise: a `Promise` that is dropped, neither returned nor
//! chained, found through its `drop_in_place` call.
//!
//! Output lines: `funcname@file@line`, at the call that made the promise;
//! one per dropped value.
use vstd::prelude::*;
use crate::ir::{FunctionRef, InstructionRef, Module, all_instructions, fn_insts};
use crate::output::{TmpWriter, loc_line};
use crate::patterns::{is_lib_func, promise_drop_in_place};
use crate::callgraph::{inst_calls, is_inst_call_func, user_loc};
use super::common::{concat_upto, lemma_concat_upto_step, module_lines, is_lib_name};
use super::state_change_before_call::{drop_pattern, dropped_call, dropped_call_exec};

verus! {

/// `v` is a `drop_in_place` of a `Promise`, with the dropped value as argument.
pub open spec fn is_drop(m: &Module, v: int) -> bool {
    m.is_call(v) && inst_calls(m, v, drop_pattern()) && m.args(v).len() > 0
}

/// Instruction `is[k]` is the first drop of its value among `is`.
pub open spec fn first_drop(m: &Module, is: Seq<usize>, k: int) -> bool {
    is_drop(m, is[k] as int) && forall|j: int|
        0 <= j < k ==> !(#[trigger] is_drop(m, is[j] as int) && m.args(is[j] as int)[0] == m.args(is[k] as int)[0])
}

/// The line recorded at the `k`-th instruction of `f`.
pub open spec fn unhandled_at(m: &Module, f: int, k: int) -> Seq<Seq<char>> {
    let is = fn_insts(m, f);
    if first_drop(m, is, k) {
        match dropped_call(m, is[k] as int) {
            Some(u) => seq![loc_line(
                m.function_name(f),
                m.debug_loc(u as int).unwrap().filename@,
                m.debug_loc(u as int).unwrap().line as nat,
            )],
            None => Seq::empty(),
        }
    } else {
        Seq::empty()
    }
}

/// The lines recorded for function `f`.
pub open spec fn unhandled_promise_fn(m: &Module, f: int) -> Seq<Seq<char>> {
    if is_lib_name(m, f) {
        Seq::empty()
    } else {
        concat_upto(fn_insts(m, f).len() as int, |k: int| unhandled_at(m, f, k))
    }
}

fn unhandled_promise_in(m: &Module, f: usize, w: &mut TmpWriter)
    requires
        m.wf(),
        f < m.functions@.len(),
    ensures
        final(w).lines_view() == old(w).lines_view() + unhandled_promise_fn(m, f as int),
        final(w).detector == old(w).detector,
{
    let func = FunctionRef(f);
    if is_lib_func(func.name(m)) {
        assert(old(w).lines_view() + Seq::<Seq<char>>::empty() =~= old(w).lines_view());
        return;
    }
    let re_drop = promise_drop_in_place();
    let insts = all_instructions(m, &func);
    let ghost is = fn_insts(m, f as int);
    let ghost per = |k: int| unhandled_at(m, f as int, k);
    let mut reported: Vec<bool> = Vec::new();
    let nv = m.values.len();
    for x in 0..nv
        invariant
            nv == m.values@.len(),
            reported@.len() == x,
            forall|y: int| 0 <= y < x ==> !#[trigger] reported@[y],
    {
        reported.push(false);
    }
    let n = insts.len();
    assert(old(w).lines_view() + concat_upto(0, per) =~= old(w).lines_view());
    for k in 0..n
        invariant
            m.wf(),
            f < m.functions@.len(),
            func.0 == f,
            re_drop@ == drop_pattern(),
            n == insts@.len(),
            n == is.len(),
            is == fn_insts(m, f as int),
            per == (|k: int| unhandled_at(m, f as int, k)),
            forall|j: int| 0 <= j < n ==> (#[trigger] insts@[j]).0 == is[j],
            forall|j: int| 0 <= j < n ==> (#[trigger] insts@[j]).0 < m.values@.len(),
            reported@.len() == m.values@.len(),
            forall|y: int| 0 <= y < m.values@.len() ==> (#[trigger] reported@[y] <==> exists|j: int|
                0 <= j < k && #[trigger] is_drop(m, is[j] as int) && m.args(is[j] as int)[0] == y),
            w.lines_view() == old(w).lines_view() + concat_upto(k as int, per),
            w.detector == old(w).detector,
    {
        proof {
            lemma_concat_upto_step(old(w).lines_view(), k as int, per);
        }
        let inst = &insts[k];
        assert(inst.0 == is[k as int]);
        let ghost v = is[k as int] as int;
        if inst.is_call(m) && is_inst_call_func(m, inst, re_drop) && inst.num_args(m) > 0 {
            let drop_arg = inst.get_arg(m, 0);
            if reported[drop_arg] {
                assert(!first_drop(m, is, k as int));
                assert(w.lines_view() =~= old(w).lines_view() + concat_upto(k + 1, per));
            } else {
                assert(first_drop(m, is, k as int));
                reported.set(drop_arg, true);
                match dropped_call_exec(m, inst, re_drop) {
                    Some(u) => {
                        proof {
                            super::state_change_before_call::lemma_dropped_call_user_code(m, v);
                        }
                        let loc = InstructionRef(u).debug_loc(m).unwrap();
                        w.write(func.name(m), loc.filename.as_str(), loc.line);
                    },
                    None => {
                        assert(w.lines_view() =~= old(w).lines_view() + concat_upto(k + 1, per));
                    },
                }
            }
        } else {
            assert(!is_drop(m, v));
            assert(w.lines_view() =~= old(w).lines_view() + concat_upto(k + 1, per));
        }
    }
}

/// Records, for each value whose `Promise` is dropped, the call that made it.
pub fn unhandled_promise(m: &Module, w: &mut TmpWriter)
    requires
        m.wf(),
    ensures
        final(w).lines_view() == old(w).lines_view() + module_lines(m, |f: int| unhandled_promise_fn(m, f)),
        final(w).detector == old(w).detector,
{
    let ghost per = |f: int| unhandled_promise_fn(m, f);
    let n = m.functions.len();
    for k in 0..n
        invariant
            m.wf(),
            n == m.functions@.len(),
            per == (|f: int| unhandled_promise_fn(m, f)),
            w.lines_view() == old(w).lines_view() + concat_upto(k as int, per),
            w.detector == old(w).detector,
    {
        unhandled_promise_in(m, k, w);
        proof {
            lemma_concat_upto_step(old(w).lines_view(), k as int, per);
        }
    }
}

} // verus!
