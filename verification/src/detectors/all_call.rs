//! all_call: every direct call site in user code, by callee.
//!
//! Output lines: `callee@file@line`.
use vstd::prelude::*;
use crate::ir::{FunctionRef, Module, all_instructions, fn_insts};
use crate::output::{TmpWriter, loc_line};
use crate::patterns::is_lib_func;
use crate::callgraph::{has_user_loc, user_loc};
use super::common::{concat_upto, lemma_concat_upto_step, module_lines, is_lib_name};

verus! {

/// The line recorded at instruction `v`.
pub open spec fn call_line(m: &Module, v: int) -> Option<Seq<char>> {
    if user_loc(m, v) && m.called_fn_name(v) is Some {
        Some(loc_line(m.called_fn_name(v).unwrap(), m.debug_loc(v).unwrap().filename@, m.debug_loc(v).unwrap().line as nat))
    } else {
        None
    }
}

/// The lines recorded for function `f`.
pub open spec fn all_call_fn(m: &Module, f: int) -> Seq<Seq<char>> {
    if is_lib_name(m, f) {
        Seq::empty()
    } else {
        fn_insts(m, f).filter_map(|v: usize| call_line(m, v as int))
    }
}

fn all_call_in(m: &Module, f: usize, w: &mut TmpWriter)
    requires
        m.wf(),
        f < m.functions@.len(),
    ensures
        final(w).lines_view() == old(w).lines_view() + all_call_fn(m, f as int),
        final(w).detector == old(w).detector,
{
    let func = FunctionRef(f);
    if is_lib_func(func.name(m)) {
        assert(old(w).lines_view() + Seq::<Seq<char>>::empty() =~= old(w).lines_view());
        return;
    }
    let insts = all_instructions(m, &func);
    let ghost is = fn_insts(m, f as int);
    let ghost g = |v: usize| call_line(m, v as int);
    let n = insts.len();
    assert(old(w).lines_view() + is.take(0).filter_map(g) =~= old(w).lines_view());
    for k in 0..n
        invariant
            m.wf(),
            n == insts@.len(),
            n == is.len(),
            is == fn_insts(m, f as int),
            g == (|v: usize| call_line(m, v as int)),
            forall|j: int| 0 <= j < n ==> (#[trigger] insts@[j]).0 == is[j],
            forall|j: int| 0 <= j < n ==> (#[trigger] insts@[j]).0 < m.values@.len(),
            w.lines_view() == old(w).lines_view() + is.take(k as int).filter_map(g),
            w.detector == old(w).detector,
    {
        proof {
            is.lemma_filter_map_take_succ(g, k as int);
        }
        let inst = &insts[k];
        assert(inst.0 == is[k as int]);
        if has_user_loc(m, inst) {
            match inst.called_fn_name(m) {
                Some(callee) => {
                    let loc = inst.debug_loc(m).unwrap();
                    w.write(callee, loc.filename.as_str(), loc.line);
                },
                None => {},
            }
        }
        assert(w.lines_view() =~= old(w).lines_view() + is.take(k + 1).filter_map(g));
    }
    assert(is.take(n as int) =~= is);
}

/// Records every direct call made in user code.
pub fn all_call(m: &Module, w: &mut TmpWriter)
    requires
        m.wf(),
    ensures
        final(w).lines_view() == old(w).lines_view() + module_lines(m, |f: int| all_call_fn(m, f)),
        final(w).detector == old(w).detector,
{
    let ghost per = |f: int| all_call_fn(m, f);
    let n = m.functions.len();
    for k in 0..n
        invariant
            m.wf(),
            n == m.functions@.len(),
            per == (|f: int| all_call_fn(m, f)),
            w.lines_view() == old(w).lines_view() + concat_upto(k as int, per),
            w.detector == old(w).detector,
    {
        all_call_in(m, k, w);
        proof {
            lemma_concat_upto_step(old(w).lines_view(), k as int, per);
        }
    }
}

} // verus!
