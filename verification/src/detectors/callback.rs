//! callback: the functions that read a promise result, that is the
//! callbacks of cross-contract calls. Its output is the callback list that
//! `yocto_attach` reads.
//!
//! Output lines: `funcname@file`, with the file of the function's first
//! instruction in user code.
use vstd::prelude::*;
use crate::ir::{FunctionRef, InstructionRef, Module, all_instructions, fn_insts};
use crate::output::{TmpWriter, func_file_line};
use crate::patterns::{is_lib_func, promise_result};
use crate::callgraph::{has_user_loc, inst_calls, is_inst_call_func, user_loc};
use super::common::{concat_upto, lemma_concat_upto_step, module_lines, is_lib_name, first_index, lemma_first_index, lemma_first_index_none, lemma_first_index_some};
use super::reentrancy::promise_result_pattern;
use super::upgrade_owner_check::first_user_inst;

verus! {

/// `v` reads a promise result in user code.
pub open spec fn result_read(m: &Module, v: int) -> bool {
    user_loc(m, v) && inst_calls(m, v, promise_result_pattern())
}

/// The file of the first instruction of `is` in user code.
pub open spec fn first_user_file(m: &Module, is: Seq<usize>) -> Seq<char> {
    match first_user_inst(m, is) {
        Some(k) => m.debug_loc(is[k] as int).unwrap().filename@,
        None => Seq::empty(),
    }
}

/// The line recorded for function `f`.
pub open spec fn callback_fn(m: &Module, f: int) -> Seq<Seq<char>> {
    let is = fn_insts(m, f);
    if is_lib_name(m, f) || !(exists|k: int| 0 <= k < is.len() && #[trigger] result_read(m, is[k] as int)) {
        Seq::empty()
    } else {
        seq![func_file_line(m.function_name(f), first_user_file(m, is))]
    }
}

/// The file of the first instruction in user code, and whether some
/// instruction reads a promise result.
fn scan(m: &Module, insts: &Vec<InstructionRef>, f: usize) -> (r: (Option<usize>, bool))
    requires
        m.wf(),
        f < m.functions@.len(),
        insts@.len() == fn_insts(m, f as int).len(),
        forall|j: int| 0 <= j < insts@.len() ==> (#[trigger] insts@[j]).0 == fn_insts(m, f as int)[j],
        forall|j: int| 0 <= j < insts@.len() ==> (#[trigger] insts@[j]).0 < m.values@.len(),
    ensures
        match r.0 {
            Some(j) => first_user_inst(m, fn_insts(m, f as int)) == Some(j as int) && j < insts@.len(),
            None => first_user_inst(m, fn_insts(m, f as int)) is None,
        },
        r.1 == exists|k: int| 0 <= k < insts@.len() && #[trigger] result_read(m, fn_insts(m, f as int)[k] as int),
{
    let re = promise_result();
    let ghost is = fn_insts(m, f as int);
    let ghost p = |k: int| user_loc(m, is[k] as int);
    let n = insts.len();
    let mut first: Option<usize> = None;
    let mut reads = false;
    for k in 0..n
        invariant
            m.wf(),
            re@ == promise_result_pattern(),
            n == insts@.len(),
            n == is.len(),
            is == fn_insts(m, f as int),
            p == (|k: int| user_loc(m, is[k] as int)),
            forall|j: int| 0 <= j < n ==> (#[trigger] insts@[j]).0 == is[j],
            forall|j: int| 0 <= j < n ==> (#[trigger] insts@[j]).0 < m.values@.len(),
            reads == exists|j: int| 0 <= j < k && #[trigger] result_read(m, is[j] as int),
            match first {
                Some(j) => j < k && first_index(n as int, p) == Some(j as int),
                None => forall|j: int| 0 <= j < k ==> !#[trigger] p(j),
            },
    {
        let inst = &insts[k];
        assert(inst.0 == is[k as int]);
        if has_user_loc(m, inst) {
            if first.is_none() {
                proof {
                    lemma_first_index(n as int, p, k as int);
                }
                first = Some(k);
            }
            if is_inst_call_func(m, inst, re) {
                assert(result_read(m, is[k as int] as int));
                reads = true;
            }
        }
        assert(result_read(m, is[k as int] as int) ==> reads);
        assert(reads ==> exists|j: int| 0 <= j < k + 1 && #[trigger] result_read(m, is[j] as int));
    }
    if first.is_none() {
        proof {
            lemma_first_index_none(n as int, p);
        }
    }
    (first, reads)
}

fn callback_in(m: &Module, f: usize, w: &mut TmpWriter)
    requires
        m.wf(),
        f < m.functions@.len(),
    ensures
        final(w).lines_view() == old(w).lines_view() + callback_fn(m, f as int),
        final(w).detector == old(w).detector,
{
    let func = FunctionRef(f);
    assert(old(w).lines_view() + Seq::<Seq<char>>::empty() =~= old(w).lines_view());
    if is_lib_func(func.name(m)) {
        return;
    }
    let insts = all_instructions(m, &func);
    let (first, reads) = scan(m, &insts, f);
    if !reads {
        return;
    }
    match first {
        Some(j) => {
            proof {
                lemma_first_index_some(fn_insts(m, f as int).len() as int, |k: int| user_loc(m, fn_insts(m, f as int)[k] as int));
            }
            let loc = insts[j].debug_loc(m).unwrap();
            w.write_func_file(func.name(m), loc.filename.as_str());
        },
        None => {
            proof {
                reveal_strlit("");
            }
            w.write_func_file(func.name(m), "");
        },
    }
}

/// Records every callback, with its file.
pub fn callback(m: &Module, w: &mut TmpWriter)
    requires
        m.wf(),
    ensures
        final(w).lines_view() == old(w).lines_view() + module_lines(m, |f: int| callback_fn(m, f)),
        final(w).detector == old(w).detector,
{
    let ghost per = |f: int| callback_fn(m, f);
    let n = m.functions.len();
    for k in 0..n
        invariant
            m.wf(),
            n == m.functions@.len(),
            per == (|f: int| callback_fn(m, f)),
            w.lines_view() == old(w).lines_view() + concat_upto(k as int, per),
            w.detector == old(w).detector,
    {
        callback_in(m, k, w);
        proof {
            lemma_concat_upto_step(old(w).lines_view(), k as int, per);
        }
    }
}

} // verus!
