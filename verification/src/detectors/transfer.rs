//! transfer: every call in user code that transfers NEAR tokens or NEP-141
//! tokens, directly or through the functions it calls.
//!
//! Output lines: `funcname@file@line`, at each such call.
use vstd::prelude::*;
use crate::ir::{FunctionRef, Module, all_instructions, fn_insts};
use crate::output::{TmpWriter, loc_line};
use crate::patterns::{is_lib_func, nep141_transfer, promise_transfer};
use crate::callgraph::{has_user_loc, inst_calls_rec, is_inst_call_func_rec, user_loc};
use super::common::{concat_upto, lemma_concat_upto_step, module_lines, is_lib_name};

verus! {

pub open spec fn promise_transfer_pattern() -> Seq<char> {
    r"near_sdk[0-9]+promise[0-9]+Promise[0-9]+transfer[0-9]+"@
}

pub open spec fn nep141_transfer_pattern() -> Seq<char> {
    r"[0-9]+(ft_transfer(_call)?)[0-9]+"@
}

/// The line recorded at instruction `v` of function `f`.
pub open spec fn transfer_line(m: &Module, f: int, v: int) -> Option<Seq<char>> {
    if user_loc(m, v) && (inst_calls_rec(m, v, promise_transfer_pattern()) || inst_calls_rec(m, v, nep141_transfer_pattern())) {
        Some(loc_line(m.function_name(f), m.debug_loc(v).unwrap().filename@, m.debug_loc(v).unwrap().line as nat))
    } else {
        None
    }
}

/// The lines recorded for function `f`.
pub open spec fn transfer_fn(m: &Module, f: int) -> Seq<Seq<char>> {
    if is_lib_name(m, f) {
        Seq::empty()
    } else {
        fn_insts(m, f).filter_map(|v: usize| transfer_line(m, f, v as int))
    }
}

fn transfer_in(m: &Module, f: usize, w: &mut TmpWriter)
    requires
        m.wf(),
        f < m.functions@.len(),
    ensures
        final(w).lines_view() == old(w).lines_view() + transfer_fn(m, f as int),
        final(w).detector == old(w).detector,
{
    let func = FunctionRef(f);
    if is_lib_func(func.name(m)) {
        assert(old(w).lines_view() + Seq::<Seq<char>>::empty() =~= old(w).lines_view());
        return;
    }
    let re_transfer = promise_transfer();
    let re_nep141 = nep141_transfer();
    let insts = all_instructions(m, &func);
    let ghost is = fn_insts(m, f as int);
    let ghost g = |v: usize| transfer_line(m, f as int, v as int);
    let n = insts.len();
    assert(old(w).lines_view() + is.take(0).filter_map(g) =~= old(w).lines_view());
    for k in 0..n
        invariant
            m.wf(),
            f < m.functions@.len(),
            func.0 == f,
            re_transfer@ == promise_transfer_pattern(),
            re_nep141@ == nep141_transfer_pattern(),
            n == insts@.len(),
            n == is.len(),
            is == fn_insts(m, f as int),
            g == (|v: usize| transfer_line(m, f as int, v as int)),
            forall|j: int| 0 <= j < n ==> (#[trigger] insts@[j]).0 == is[j],
            forall|j: int| 0 <= j < n ==> (#[trigger] insts@[j]).0 < m.values@.len(),
            w.lines_view() == old(w).lines_view() + is.take(k as int).filter_map(g),
            w.detector == old(w).detector,
    {
        proof {
            is.lemma_filter_map_take_succ(g, k as int);
        }
        let inst = &insts[k];
        assert(inst.0 == is[k as int]);
        if has_user_loc(m, inst) {
            if is_inst_call_func_rec(m, inst, re_transfer) || is_inst_call_func_rec(m, inst, re_nep141) {
                let loc = inst.debug_loc(m).unwrap();
                w.write(func.name(m), loc.filename.as_str(), loc.line);
            }
        }
        assert(w.lines_view() =~= old(w).lines_view() + is.take(k + 1).filter_map(g));
    }
    assert(is.take(n as int) =~= is);
}

/// Records every token transfer made in user code.
pub fn transfer(m: &Module, w: &mut TmpWriter)
    requires
        m.wf(),
    ensures
        final(w).lines_view() == old(w).lines_view() + module_lines(m, |f: int| transfer_fn(m, f)),
        final(w).detector == old(w).detector,
{
    let ghost per = |f: int| transfer_fn(m, f);
    let n = m.functions.len();
    for k in 0..n
        invariant
            m.wf(),
            n == m.functions@.len(),
            per == (|f: int| transfer_fn(m, f)),
            w.lines_view() == old(w).lines_view() + concat_upto(k as int, per),
            w.detector == old(w).detector,
    {
        transfer_in(m, k, w);
        proof {
            lemma_concat_upto_step(old(w).lines_view(), k as int, per);
        }
    }
}

} // verus!
