//! timestamp: every use of `env::block_timestamp` in user code; validators
//! can shift the timestamp.
//!
//! Output lines: `funcname@file@line`, at each call.
use vstd::prelude::*;
use crate::ir::{FunctionRef, Module, all_instructions, fn_insts};
use crate::output::{TmpWriter, loc_line};
use crate::patterns::block_timestamp;
use crate::callgraph::{has_user_loc, inst_calls, is_inst_call_func, user_loc};
use super::common::{concat_upto, lemma_concat_upto_step, module_lines};

verus! {

pub open spec fn timestamp_pattern() -> Seq<char> {
    r"block_timestamp"@
}

/// The line recorded at instruction `v` of function `f`.
pub open spec fn timestamp_line(m: &Module, f: int, v: int) -> Option<Seq<char>> {
    if user_loc(m, v) && inst_calls(m, v, timestamp_pattern()) {
        Some(loc_line(m.function_name(f), m.debug_loc(v).unwrap().filename@, m.debug_loc(v).unwrap().line as nat))
    } else {
        None
    }
}

/// The lines recorded for function `f` (library functions included).
pub open spec fn timestamp_fn(m: &Module, f: int) -> Seq<Seq<char>> {
    fn_insts(m, f).filter_map(|v: usize| timestamp_line(m, f, v as int))
}

fn timestamp_in(m: &Module, f: usize, w: &mut TmpWriter)
    requires
        m.wf(),
        f < m.functions@.len(),
    ensures
        final(w).lines_view() == old(w).lines_view() + timestamp_fn(m, f as int),
        final(w).detector == old(w).detector,
{
    let func = FunctionRef(f);
    let re = block_timestamp();
    let insts = all_instructions(m, &func);
    let ghost is = fn_insts(m, f as int);
    let ghost g = |v: usize| timestamp_line(m, f as int, v as int);
    let n = insts.len();
    assert(old(w).lines_view() + is.take(0).filter_map(g) =~= old(w).lines_view());
    for k in 0..n
        invariant
            m.wf(),
            f < m.functions@.len(),
            func.0 == f,
            re@ == timestamp_pattern(),
            n == insts@.len(),
            n == is.len(),
            is == fn_insts(m, f as int),
            g == (|v: usize| timestamp_line(m, f as int, v as int)),
            forall|j: int| 0 <= j < n ==> (#[trigger] insts@[j]).0 == is[j],
            forall|j: int| 0 <= j < n ==> (#[trigger] insts@[j]).0 < m.values@.len(),
            w.lines_view() == old(w).lines_view() + is.take(k as int).filter_map(g),
            w.detector == old(w).detector,
    {
        proof {
            is.lemma_filter_map_take_succ(g, k as int);
        }
        let inst = &insts[k];
        assert(inst.0 == is[k as int]);
        if has_user_loc(m, inst) && is_inst_call_func(m, inst, re) {
            let loc = inst.debug_loc(m).unwrap();
            w.write(func.name(m), loc.filename.as_str(), loc.line);
        }
        assert(w.lines_view() =~= old(w).lines_view() + is.take(k + 1).filter_map(g));
    }
    assert(is.take(n as int) =~= is);
}

/// Records every call of `block_timestamp` in user code.
pub fn timestamp(m: &Module, w: &mut TmpWriter)
    requires
        m.wf(),
    ensures
        final(w).lines_view() == old(w).lines_view() + module_lines(m, |f: int| timestamp_fn(m, f)),
        final(w).detector == old(w).detector,
{
    let ghost per = |f: int| timestamp_fn(m, f);
    let n = m.functions.len();
    for k in 0..n
        invariant
            m.wf(),
            n == m.functions@.len(),
            per == (|f: int| timestamp_fn(m, f)),
            w.lines_view() == old(w).lines_view() + concat_upto(k as int, per),
            w.detector == old(w).detector,
    {
        timestamp_in(m, k, w);
        proof {
            lemma_concat_upto_step(old(w).lines_view(), k as int, per);
        }
    }
}

} // verus!
