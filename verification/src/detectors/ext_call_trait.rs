//! ext_call_trait: every function that makes an external call
//! (`Promise::function_call`). Its output is the pattern list that
//! `ext_call` reads.
//!
//! Output lines: `funcname`.
use vstd::prelude::*;
use crate::ir::{FunctionRef, Module, all_instructions, fn_insts};
use crate::output::TmpWriter;
use crate::patterns::{ext_call, is_lib_func};
use crate::callgraph::{has_user_loc, inst_calls, is_inst_call_func, user_loc};
use super::common::{user_call_to, concat_upto, lemma_concat_upto_step, module_lines, is_lib_name};

verus! {

pub open spec fn ext_call_pattern() -> Seq<char> {
    r".+near_sdk[0-9]+promise[0-9]+Promise[0-9]+function_call(_weight)?[0-9]+"@
}

/// The line recorded for function `f`.
pub open spec fn ext_call_trait_fn(m: &Module, f: int) -> Seq<Seq<char>> {
    if is_lib_name(m, f) || !user_call_to(m, fn_insts(m, f), ext_call_pattern()) {
        Seq::empty()
    } else {
        seq![m.function_name(f)]
    }
}

fn ext_call_trait_in(m: &Module, f: usize, w: &mut TmpWriter)
    requires
        m.wf(),
        f < m.functions@.len(),
    ensures
        final(w).lines_view() == old(w).lines_view() + ext_call_trait_fn(m, f as int),
        final(w).detector == old(w).detector,
{
    let func = FunctionRef(f);
    assert(old(w).lines_view() + Seq::<Seq<char>>::empty() =~= old(w).lines_view());
    if is_lib_func(func.name(m)) {
        return;
    }
    let re_ext = ext_call();
    let insts = all_instructions(m, &func);
    let ghost is = fn_insts(m, f as int);
    let n = insts.len();
    for k in 0..n
        invariant
            m.wf(),
            f < m.functions@.len(),
            func.0 == f,
            re_ext@ == ext_call_pattern(),
            n == insts@.len(),
            n == is.len(),
            is == fn_insts(m, f as int),
            forall|j: int| 0 <= j < n ==> (#[trigger] insts@[j]).0 == is[j],
            forall|j: int| 0 <= j < n ==> (#[trigger] insts@[j]).0 < m.values@.len(),
            forall|j: int| 0 <= j < k ==> !(user_loc(m, is[j] as int) && #[trigger] inst_calls(m, is[j] as int, ext_call_pattern())),
            !is_lib_name(m, f as int),
            w.lines_view() == old(w).lines_view(),
            w.detector == old(w).detector,
    {
        let inst = &insts[k];
        assert(inst.0 == is[k as int]);
        if has_user_loc(m, inst) && is_inst_call_func(m, inst, re_ext) {
            w.write_name(func.name(m));
            return;
        }
    }
}

/// Records every function that makes an external call.
pub fn ext_call_trait(m: &Module, w: &mut TmpWriter)
    requires
        m.wf(),
    ensures
        final(w).lines_view() == old(w).lines_view() + module_lines(m, |f: int| ext_call_trait_fn(m, f)),
        final(w).detector == old(w).detector,
{
    let ghost per = |f: int| ext_call_trait_fn(m, f);
    let n = m.functions.len();
    for k in 0..n
        invariant
            m.wf(),
            n == m.functions@.len(),
            per == (|f: int| ext_call_trait_fn(m, f)),
            w.lines_view() == old(w).lines_view() + concat_upto(k as int, per),
            w.detector == old(w).detector,
    {
        ext_call_trait_in(m, k, w);
        proof {
            lemma_concat_upto_step(old(w).lines_view(), k as int, per);
        }
    }
}

} // verus!
