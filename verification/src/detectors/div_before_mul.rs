//! div_before_mul: a division whose result flows into a multiplication,
//! losing precision.
//!
//! Output lines: `funcname@file@line`, at the division.
use vstd::prelude::*;
use crate::ir::{FunctionRef, InstructionRef, Module, Opcode, all_instructions, fn_insts};
use crate::output::{TmpWriter, loc_line};
use crate::patterns::{is_lib_loc, lib_loc_pattern, pattern_matches};
use crate::callgraph::{has_user_loc, inst_calls, user_loc};
use crate::users::{users_of, users_spec};
use super::common::{concat_upto, lemma_concat_upto_step, module_lines};

verus! {

pub open spec fn mul_overflow_pattern() -> Seq<char> {
    r"llvm\.[a-z]?mul\.with\.overflow\."@
}

pub open spec fn is_div_inst(m: &Module, v: int) -> bool {
    m.has_opcode(v, Opcode::UDiv) || m.has_opcode(v, Opcode::SDiv) || m.has_opcode(v, Opcode::FDiv)
}

/// `u` is an instruction, not in library code, that multiplies: a `mul`, an
/// `fmul` or a call of an LLVM multiply-with-overflow intrinsic.
pub open spec fn mul_user(m: &Module, u: int) -> bool {
    &&& m.is_inst(u)
    &&& match m.debug_loc(u) {
        Some(l) => !pattern_matches(lib_loc_pattern(), l.filename@),
        None => true,
    }
    &&& (m.has_opcode(u, Opcode::Mul) || m.has_opcode(u, Opcode::FMul) || inst_calls(m, u, mul_overflow_pattern()))
}

/// A division in user code whose transitive users include a multiplication.
pub open spec fn div_before_mul_at(m: &Module, v: int) -> bool {
    user_loc(m, v) && is_div_inst(m, v) && exists|u: int|
        0 <= u < m.values@.len() && #[trigger] users_spec(m, v, true, false)[u] && mul_user(m, u)
}

/// The line recorded at instruction `v` of function `f`.
pub open spec fn div_line(m: &Module, f: int, v: int) -> Option<Seq<char>> {
    if div_before_mul_at(m, v) {
        Some(loc_line(m.function_name(f), m.debug_loc(v).unwrap().filename@, m.debug_loc(v).unwrap().line as nat))
    } else {
        None
    }
}

/// The lines recorded for function `f` (library functions included).
pub open spec fn div_before_mul_fn(m: &Module, f: int) -> Seq<Seq<char>> {
    fn_insts(m, f).filter_map(|v: usize| div_line(m, f, v as int))
}

fn mul_user_exec(m: &Module, u: usize) -> (r: bool)
    requires
        m.wf(),
        u < m.values@.len(),
    ensures
        r == mul_user(m, u as int),
{
    if m.inst_data(u).is_none() {
        return false;
    }
    let ui = InstructionRef(u);
    match ui.debug_loc(m) {
        Some(l) => {
            if is_lib_loc(l.filename.as_str()) {
                return false;
            }
        },
        None => {},
    }
    ui.is_mul(m) || ui.is_llvm_mul_overflow(m)
}

fn div_before_mul_at_exec(m: &Module, inst: &InstructionRef) -> (r: bool)
    requires
        m.wf(),
        inst.0 < m.values@.len(),
    ensures
        r == div_before_mul_at(m, inst.0 as int),
{
    if !has_user_loc(m, inst) || !inst.is_div(m) {
        return false;
    }
    let set = users_of(m, inst.0, true, false);
    let n = set.len();
    for u in 0..n
        invariant
            m.wf(),
            inst.0 < m.values@.len(),
            n == m.values@.len(),
            set@ == users_spec(m, inst.0 as int, true, false),
            set@.len() == n,
            user_loc(m, inst.0 as int),
            is_div_inst(m, inst.0 as int),
            forall|j: int| 0 <= j < u ==> !(#[trigger] users_spec(m, inst.0 as int, true, false)[j] && mul_user(m, j)),
    {
        if set[u] && mul_user_exec(m, u) {
            return true;
        }
    }
    false
}

fn div_before_mul_in(m: &Module, f: usize, w: &mut TmpWriter)
    requires
        m.wf(),
        f < m.functions@.len(),
    ensures
        final(w).lines_view() == old(w).lines_view() + div_before_mul_fn(m, f as int),
        final(w).detector == old(w).detector,
{
    let func = FunctionRef(f);
    let insts = all_instructions(m, &func);
    let ghost is = fn_insts(m, f as int);
    let ghost g = |v: usize| div_line(m, f as int, v as int);
    let n = insts.len();
    assert(old(w).lines_view() + is.take(0).filter_map(g) =~= old(w).lines_view());
    for k in 0..n
        invariant
            m.wf(),
            f < m.functions@.len(),
            func.0 == f,
            n == insts@.len(),
            n == is.len(),
            is == fn_insts(m, f as int),
            g == (|v: usize| div_line(m, f as int, v as int)),
            forall|j: int| 0 <= j < n ==> (#[trigger] insts@[j]).0 == is[j],
            forall|j: int| 0 <= j < n ==> (#[trigger] insts@[j]).0 < m.values@.len(),
            w.lines_view() == old(w).lines_view() + is.take(k as int).filter_map(g),
            w.detector == old(w).detector,
    {
        proof {
            is.lemma_filter_map_take_succ(g, k as int);
        }
        let inst = &insts[k];
        assert(inst.0 == is[k as int]);
        if div_before_mul_at_exec(m, inst) {
            let loc = inst.debug_loc(m).unwrap();
            w.write(func.name(m), loc.filename.as_str(), loc.line);
        }
        assert(w.lines_view() =~= old(w).lines_view() + is.take(k + 1).filter_map(g));
    }
    assert(is.take(n as int) =~= is);
}

/// Records every division in user code whose result reaches a multiplication.
pub fn div_before_mul(m: &Module, w: &mut TmpWriter)
    requires
        m.wf(),
    ensures
        final(w).lines_view() == old(w).lines_view() + module_lines(m, |f: int| div_before_mul_fn(m, f)),
        final(w).detector == old(w).detector,
{
    let ghost per = |f: int| div_before_mul_fn(m, f);
    let n = m.functions.len();
    for k in 0..n
        invariant
            m.wf(),
            n == m.functions@.len(),
            per == (|f: int| div_before_mul_fn(m, f)),
            w.lines_view() == old(w).lines_view() + concat_upto(k as int, per),
            w.detector == old(w).detector,
    {
        div_before_mul_in(m, k, w);
        proof {
            lemma_concat_upto_step(old(w).lines_view(), k as int, per);
        }
    }
}

} // verus!
