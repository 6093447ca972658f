//! unclaimed_storage_fee: does a `storage_unregister` implementation compare
//! the account balance against zero before allowing the withdrawal?
//!
//! Output lines: `funcname@True` (balance check present) or `funcname@False`.
use vstd::prelude::*;
use crate::ir::{FunctionRef, InstructionRef, IntPredicate, Module, Opcode, TypeKind, ValueKind, all_instructions, fn_insts};
use crate::output::{TmpWriter, bool_line};
use crate::patterns::{is_lib_func, is_match, pattern_matches, storage_unregister};
use crate::callgraph::no_functions;
use super::common::{concat_upto, lemma_concat_upto_step, module_lines, is_lib_name, is_zero_const};

verus! {

/// The value has the 128-bit integer type (a `Balance`).
pub open spec fn is_int128(m: &Module, v: int) -> bool {
    m.valid(v) && (m.values[v].ty matches Some(t) && t.kind is Integer && t.int_width == 128)
}

/// `v` is an `icmp` of a 128-bit integer against the constant 0:
/// `==`/`!=` with zero on either side, `<=`/`>` with zero on the right,
/// `>=`/`<` with zero on the left (all unsigned).
pub open spec fn is_balance_compare(m: &Module, v: int) -> bool {
    m.has_opcode(v, Opcode::ICmp) && m.operands(v).len() >= 2 && {
        let op0 = m.operands(v)[0] as int;
        let op1 = m.operands(v)[1] as int;
        is_int128(m, op0) && match m.inst(v).unwrap().predicate {
            Some(IntPredicate::Eq) | Some(IntPredicate::Ne) => is_zero_const(m, op1) || is_zero_const(m, op0),
            Some(IntPredicate::Ule) | Some(IntPredicate::Ugt) => is_zero_const(m, op1),
            Some(IntPredicate::Uge) | Some(IntPredicate::Ult) => is_zero_const(m, op0),
            _ => false,
        }
    }
}

/// The search from `f` for a balance comparison, `depth` levels of calls deep:
/// whether it finds one, and the visited marks afterwards.
pub open spec fn balance_rec(m: &Module, f: int, depth: int, vis: Seq<bool>) -> (bool, Seq<bool>)
    decreases depth, fn_insts(m, f).len() + 1,
{
    if depth <= 0 || is_lib_name(m, f) || vis[f] {
        (false, vis)
    } else {
        balance_insts(m, fn_insts(m, f), 0, depth, vis.update(f, true))
    }
}

pub open spec fn balance_insts(m: &Module, is: Seq<usize>, i: int, depth: int, vis: Seq<bool>) -> (bool, Seq<bool>)
    decreases depth, is.len() - i,
{
    if depth <= 0 || i < 0 || i >= is.len() {
        (false, vis)
    } else {
        let v = is[i] as int;
        let (b, vis1) = match m.called_function(v) {
            Some(g) => balance_rec(m, g as int, depth - 1, vis),
            None => (false, vis),
        };
        if b || is_balance_compare(m, v) {
            (true, vis1)
        } else {
            balance_insts(m, is, i + 1, depth, vis1)
        }
    }
}

fn is_const_zero(m: &Module, v: usize) -> (r: bool)
    requires
        v < m.values@.len(),
    ensures
        r == is_zero_const(m, v as int),
{
    match &m.values[v].kind {
        ValueKind::ConstantInt(x) => *x == 0,
        _ => false,
    }
}

fn balance_compare_inst(m: &Module, inst: &InstructionRef) -> (r: bool)
    requires
        m.wf(),
        inst.0 < m.values@.len(),
    ensures
        r == is_balance_compare(m, inst.0 as int),
{
    assert(m.value_wf(inst.0 as int));
    let i = match m.inst_data(inst.0) {
        Some(i) => i,
        None => {
            return false;
        },
    };
    match i.opcode {
        Opcode::ICmp => {},
        _ => {
            return false;
        },
    }
    if i.operands.len() < 2 {
        return false;
    }
    let op0 = i.operands[0];
    let op1 = i.operands[1];
    let wide = match &m.values[op0].ty {
        Some(t) => match t.kind {
            TypeKind::Integer => t.int_width == 128,
            _ => false,
        },
        None => false,
    };
    if !wide {
        return false;
    }
    match i.predicate {
        Some(IntPredicate::Eq) | Some(IntPredicate::Ne) => is_const_zero(m, op1) || is_const_zero(m, op0),
        Some(IntPredicate::Ule) | Some(IntPredicate::Ugt) => is_const_zero(m, op1),
        Some(IntPredicate::Uge) | Some(IntPredicate::Ult) => is_const_zero(m, op0),
        _ => false,
    }
}

/// True if `func` (or a function it calls, within `depth` levels) contains a
/// 128-bit integer comparison against zero, indicating a balance check.
pub fn has_balance_compare(m: &Module, func: &FunctionRef, depth: i32, visited: &mut Vec<bool>) -> (r: bool)
    requires
        m.wf(),
        func.0 < m.functions@.len(),
        old(visited)@.len() == m.functions@.len(),
    ensures
        (r, final(visited)@) == balance_rec(m, func.0 as int, depth as int, old(visited)@),
        final(visited)@.len() == m.functions@.len(),
    decreases depth,
{
    let f = func.0;
    if depth <= 0 || is_lib_func(func.name(m)) || visited[f] {
        return false;
    }
    visited.set(f, true);
    let ghost vis1 = visited@;
    let insts = all_instructions(m, func);
    let ghost is = fn_insts(m, f as int);
    let n = insts.len();
    let mut k: usize = 0;
    while k < n
        invariant
            m.wf(),
            depth > 0,
            f == func.0,
            n == insts@.len(),
            n == is.len(),
            forall|j: int| 0 <= j < n ==> (#[trigger] insts@[j]).0 == is[j],
            forall|j: int| 0 <= j < n ==> (#[trigger] insts@[j]).0 < m.values@.len(),
            k <= n,
            visited@.len() == m.functions@.len(),
            balance_insts(m, is, k as int, depth as int, visited@) == balance_insts(m, is, 0, depth as int, vis1),
            balance_rec(m, f as int, depth as int, old(visited)@) == balance_insts(m, is, 0, depth as int, vis1),
        decreases n - k,
    {
        let inst = &insts[k];
        assert(inst.0 == is[k as int]);
        let ghost old_vis = visited@;
        match m.direct_callee(inst.0) {
            Some(g) => {
                if has_balance_compare(m, &FunctionRef(g), depth - 1, visited) {
                    assert(balance_insts(m, is, k as int, depth as int, old_vis) == (true, visited@));
                    return true;
                }
            },
            None => {},
        }
        assert(balance_insts(m, is, k as int, depth as int, old_vis) == if is_balance_compare(m, is[k as int] as int) {
            (true, visited@)
        } else {
            balance_insts(m, is, k + 1, depth as int, visited@)
        });
        if balance_compare_inst(m, inst) {
            return true;
        }
        k += 1;
    }
    false
}

pub open spec fn unregister_pattern() -> Seq<char> {
    r"[0-9]+storage_unregister[0-9]+"@
}

/// The line recorded for function `f`.
pub open spec fn unclaimed_storage_fee_fn(m: &Module, f: int) -> Seq<Seq<char>> {
    if is_lib_name(m, f) || !pattern_matches(unregister_pattern(), m.function_name(f)) {
        Seq::empty()
    } else {
        seq![bool_line(
            m.function_name(f),
            balance_rec(m, f, 3, Seq::new(m.functions@.len(), |k: int| false)).0,
        )]
    }
}

fn unclaimed_storage_fee_in(m: &Module, f: usize, w: &mut TmpWriter)
    requires
        m.wf(),
        f < m.functions@.len(),
    ensures
        final(w).lines_view() == old(w).lines_view() + unclaimed_storage_fee_fn(m, f as int),
        final(w).detector == old(w).detector,
{
    let func = FunctionRef(f);
    let name = func.name(m);
    if is_lib_func(name) || !is_match(storage_unregister(), name) {
        assert(old(w).lines_view() + Seq::<Seq<char>>::empty() == old(w).lines_view());
        return;
    }
    let mut visited = no_functions(m);
    let ok = has_balance_compare(m, &func, 3, &mut visited);
    w.write_bool(name, ok);
}

/// Records, for every `storage_unregister` implementation, whether it checks
/// the balance against zero.
pub fn unclaimed_storage_fee(m: &Module, w: &mut TmpWriter)
    requires
        m.wf(),
    ensures
        final(w).lines_view() == old(w).lines_view() + module_lines(m, |f: int| unclaimed_storage_fee_fn(m, f)),
        final(w).detector == old(w).detector,
{
    let ghost per = |f: int| unclaimed_storage_fee_fn(m, f);
    let n = m.functions.len();
    for k in 0..n
        invariant
            m.wf(),
            n == m.functions@.len(),
            per == (|f: int| unclaimed_storage_fee_fn(m, f)),
            w.lines_view() == old(w).lines_view() + concat_upto(k as int, per),
            w.detector == old(w).detector,
    {
        unclaimed_storage_fee_in(m, k, w);
        proof {
            lemma_concat_upto_step(old(w).lines_view(), k as int, per);
        }
    }
}

} // verus!
