//! promise_chain: a callback that reads a promise result at a fixed index,
//! which breaks when the promise chain changes.
//!
//! Output lines: `funcname@file@line`, at the first such read in user code.
use vstd::prelude::*;
use crate::ir::{FunctionRef, InstructionRef, Module, ValueKind, all_instructions, fn_insts};
use crate::output::{TmpWriter, loc_line};
use crate::patterns::{is_lib_func, promise_result_access};
use crate::callgraph::{has_user_loc, inst_calls, is_inst_call_func, user_loc};
use crate::text::{contains, str_contains};
use super::common::{concat_upto, lemma_concat_upto_step, module_lines, is_lib_name, first_index, lemma_first_index, lemma_first_index_none, lemma_first_index_some};
use super::upgrade_owner_check::closure_marker;
use super::unchecked_promise_result::access_pattern;

verus! {

/// Value `v` is an integer constant.
pub open spec fn is_const_int(m: &Module, v: int) -> bool {
    m.valid(v) && m.values[v].kind is ConstantInt
}

/// `v` reads a promise result, in user code, at a constant index (its second
/// argument).
pub open spec fn fixed_index_read(m: &Module, v: int) -> bool {
    user_loc(m, v) && inst_calls(m, v, access_pattern()) && m.args(v).len() >= 2
        && is_const_int(m, m.args(v)[1] as int)
}

/// The line recorded for function `f`.
pub open spec fn promise_chain_fn(m: &Module, f: int) -> Seq<Seq<char>> {
    let is = fn_insts(m, f);
    if is_lib_name(m, f) || contains(m.function_name(f), closure_marker()) {
        Seq::empty()
    } else {
        match first_index(is.len() as int, |k: int| fixed_index_read(m, is[k] as int)) {
            Some(k) => seq![loc_line(
                m.function_name(f),
                m.debug_loc(is[k] as int).unwrap().filename@,
                m.debug_loc(is[k] as int).unwrap().line as nat,
            )],
            None => Seq::empty(),
        }
    }
}

fn fixed_index_read_exec(m: &Module, inst: &InstructionRef, re_access: &str) -> (r: bool)
    requires
        m.wf(),
        inst.0 < m.values@.len(),
        re_access@ == access_pattern(),
    ensures
        r == fixed_index_read(m, inst.0 as int),
{
    if !has_user_loc(m, inst) || !is_inst_call_func(m, inst, re_access) || inst.num_args(m) < 2 {
        return false;
    }
    let idx = inst.get_arg(m, 1);
    match m.values[idx].kind {
        ValueKind::ConstantInt(_) => true,
        _ => false,
    }
}

fn promise_chain_in(m: &Module, f: usize, w: &mut TmpWriter)
    requires
        m.wf(),
        f < m.functions@.len(),
    ensures
        final(w).lines_view() == old(w).lines_view() + promise_chain_fn(m, f as int),
        final(w).detector == old(w).detector,
{
    let func = FunctionRef(f);
    assert(old(w).lines_view() + Seq::<Seq<char>>::empty() =~= old(w).lines_view());
    proof {
        reveal_strlit("$closure$");
    }
    if is_lib_func(func.name(m)) || str_contains(func.name(m), "$closure$") {
        return;
    }
    let re_access = promise_result_access();
    let insts = all_instructions(m, &func);
    let ghost is = fn_insts(m, f as int);
    let ghost p = |k: int| fixed_index_read(m, is[k] as int);
    let n = insts.len();
    for k in 0..n
        invariant
            m.wf(),
            f < m.functions@.len(),
            func.0 == f,
            re_access@ == access_pattern(),
            n == insts@.len(),
            n == is.len(),
            is == fn_insts(m, f as int),
            p == (|k: int| fixed_index_read(m, is[k] as int)),
            forall|j: int| 0 <= j < n ==> (#[trigger] insts@[j]).0 == is[j],
            forall|j: int| 0 <= j < n ==> (#[trigger] insts@[j]).0 < m.values@.len(),
            forall|j: int| 0 <= j < k ==> !#[trigger] p(j),
            !is_lib_name(m, f as int),
            !contains(m.function_name(f as int), closure_marker()),
            w.lines_view() == old(w).lines_view(),
            w.detector == old(w).detector,
    {
        let inst = &insts[k];
        assert(inst.0 == is[k as int]);
        if fixed_index_read_exec(m, inst, re_access) {
            proof {
                lemma_first_index(n as int, p, k as int);
            }
            let loc = inst.debug_loc(m).unwrap();
            w.write(func.name(m), loc.filename.as_str(), loc.line);
            return;
        }
    }
    proof {
        lemma_first_index_none(n as int, p);
    }
}

/// Records every function that reads a promise result at a fixed index.
pub fn promise_chain(m: &Module, w: &mut TmpWriter)
    requires
        m.wf(),
    ensures
        final(w).lines_view() == old(w).lines_view() + module_lines(m, |f: int| promise_chain_fn(m, f)),
        final(w).detector == old(w).detector,
{
    let ghost per = |f: int| promise_chain_fn(m, f);
    let n = m.functions.len();
    for k in 0..n
        invariant
            m.wf(),
            n == m.functions@.len(),
            per == (|f: int| promise_chain_fn(m, f)),
            w.lines_view() == old(w).lines_view() + concat_upto(k as int, per),
            w.detector == old(w).detector,
    {
        promise_chain_in(m, k, w);
        proof {
            lemma_concat_upto_step(old(w).lines_view(), k as int, per);
        }
    }
}

} // verus!
