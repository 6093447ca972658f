//! unsafe_math: unchecked integer `add`, `sub` or `mul` in user code on a
//! named value (a user variable).
//!
//! Output lines: `funcname@file@line`, at each such instruction.
use vstd::prelude::*;
use crate::ir::{FunctionRef, InstructionRef, Module, Opcode, all_instructions, fn_insts, raw_value_name};
use crate::output::{TmpWriter, loc_line};
use crate::patterns::is_lib_func;
use crate::callgraph::{has_user_loc, user_loc};
use super::common::{module_lines, concat_upto, lemma_concat_upto_step, is_lib_name};

verus! {

/// `v` or one of its operands has a name.
pub open spec fn named_var(m: &Module, v: int) -> bool {
    m.value_name(v).len() > 0 || exists|i: int|
        0 <= i < m.operands(v).len() && #[trigger] m.value_name(m.operands(v)[i] as int).len() > 0
}

/// True if the instruction or one of its operands is a named value.
pub fn has_named_var(m: &Module, inst: &InstructionRef) -> (r: bool)
    requires
        m.wf(),
        inst.0 < m.values@.len(),
    ensures
        r == named_var(m, inst.0 as int),
{
    if !raw_value_name(m, inst.0).is_empty() {
        return true;
    }
    let n = inst.num_operands(m);
    for i in 0..n
        invariant
            m.wf(),
            inst.0 < m.values@.len(),
            n == m.operands(inst.0 as int).len(),
            m.value_name(inst.0 as int).len() == 0,
            forall|j: int| 0 <= j < i ==> !(#[trigger] m.value_name(m.operands(inst.0 as int)[j] as int).len() > 0),
    {
        let op = inst.get_operand(m, i);
        if !raw_value_name(m, op).is_empty() {
            return true;
        }
    }
    false
}

/// `v` is an integer `add`, `sub` or `mul`.
pub open spec fn integer_arith(m: &Module, v: int) -> bool {
    m.has_opcode(v, Opcode::Add) || m.has_opcode(v, Opcode::Sub) || m.has_opcode(v, Opcode::Mul)
}

/// True if the instruction is an integer (not float) add, sub or mul.
pub fn is_integer_arith(m: &Module, inst: &InstructionRef) -> (r: bool)
    requires
        inst.0 < m.values@.len(),
    ensures
        r == integer_arith(m, inst.0 as int),
{
    match m.inst_data(inst.0) {
        Some(i) => match i.opcode {
            Opcode::Add | Opcode::Sub | Opcode::Mul => true,
            _ => false,
        },
        None => false,
    }
}

/// The line recorded at instruction `v` of function `f`.
pub open spec fn unsafe_math_line(m: &Module, f: int, v: int) -> Option<Seq<char>> {
    if user_loc(m, v) && integer_arith(m, v) && named_var(m, v) {
        Some(loc_line(m.function_name(f), m.debug_loc(v).unwrap().filename@, m.debug_loc(v).unwrap().line as nat))
    } else {
        None
    }
}

/// The lines recorded for function `f`.
pub open spec fn unsafe_math_fn(m: &Module, f: int) -> Seq<Seq<char>> {
    if is_lib_name(m, f) {
        Seq::empty()
    } else {
        fn_insts(m, f).filter_map(|v: usize| unsafe_math_line(m, f, v as int))
    }
}

fn unsafe_math_in(m: &Module, f: usize, w: &mut TmpWriter)
    requires
        m.wf(),
        f < m.functions@.len(),
    ensures
        final(w).lines_view() == old(w).lines_view() + unsafe_math_fn(m, f as int),
        final(w).detector == old(w).detector,
{
    let func = FunctionRef(f);
    if is_lib_func(func.name(m)) {
        assert(old(w).lines_view() + Seq::<Seq<char>>::empty() =~= old(w).lines_view());
        return;
    }
    let insts = all_instructions(m, &func);
    let ghost is = fn_insts(m, f as int);
    let ghost g = |v: usize| unsafe_math_line(m, f as int, v as int);
    let n = insts.len();
    assert(old(w).lines_view() + is.take(0).filter_map(g) =~= old(w).lines_view());
    for k in 0..n
        invariant
            m.wf(),
            f < m.functions@.len(),
            func.0 == f,
            n == insts@.len(),
            n == is.len(),
            is == fn_insts(m, f as int),
            g == (|v: usize| unsafe_math_line(m, f as int, v as int)),
            forall|j: int| 0 <= j < n ==> (#[trigger] insts@[j]).0 == is[j],
            forall|j: int| 0 <= j < n ==> (#[trigger] insts@[j]).0 < m.values@.len(),
            w.lines_view() == old(w).lines_view() + is.take(k as int).filter_map(g),
            w.detector == old(w).detector,
    {
        proof {
            is.lemma_filter_map_take_succ(g, k as int);
        }
        let inst = &insts[k];
        assert(inst.0 == is[k as int]);
        if has_user_loc(m, inst) && is_integer_arith(m, inst) && has_named_var(m, inst) {
            let loc = inst.debug_loc(m).unwrap();
            w.write(func.name(m), loc.filename.as_str(), loc.line);
        }
        assert(w.lines_view() =~= old(w).lines_view() + is.take(k + 1).filter_map(g));
    }
    assert(is.take(n as int) =~= is);
}

/// Records every unchecked integer operation on a user variable.
pub fn unsafe_math(m: &Module, w: &mut TmpWriter)
    requires
        m.wf(),
    ensures
        final(w).lines_view() == old(w).lines_view() + module_lines(m, |f: int| unsafe_math_fn(m, f)),
        final(w).detector == old(w).detector,
{
    let ghost per = |f: int| unsafe_math_fn(m, f);
    let n = m.functions.len();
    for k in 0..n
        invariant
            m.wf(),
            n == m.functions@.len(),
            per == (|f: int| unsafe_math_fn(m, f)),
            w.lines_view() == old(w).lines_view() + concat_upto(k as int, per),
            w.detector == old(w).detector,
    {
        unsafe_math_in(m, k, w);
        proof {
            lemma_concat_upto_step(old(w).lines_view(), k as int, per);
        }
    }
}

} // verus!
