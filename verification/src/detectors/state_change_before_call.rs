//! state_change_before_call: a function that stores to a field of `self`
//! and makes a cross-contract call whose `Promise` is dropped without a
//! callback. A failed call does not undo the state change.
//!
//! Output lines: `funcname@file@line`, at the cross-contract call.
use vstd::prelude::*;
use crate::ir::{FunctionRef, InstructionRef, Module, Opcode, all_below, all_instructions, fn_insts, value_users};
use crate::output::{TmpWriter, loc_line};
use crate::patterns::{is_lib_func, promise_drop_in_place};
use crate::callgraph::{has_user_loc, inst_calls, is_inst_call_func, user_loc};
use crate::users::{users_of, users_spec};
use super::common::{concat_upto, lemma_concat_upto_step, module_lines, is_lib_name, first_index, lemma_first_index, lemma_first_index_none, lemma_first_index_some};

verus! {

pub open spec fn drop_pattern() -> Seq<char> {
    r"drop_in_place.*near_sdk.*promise.*Promise"@
}

/// `u` is a call in user code other than `v`.
pub open spec fn drop_user_ok(m: &Module, v: int, u: int) -> bool {
    u != v && m.is_call(u) && user_loc(m, u)
}

/// For a call `v` that drops a `Promise`: the first user, in use-list order,
/// of the dropped value that is another call in user code (the call that made
/// the promise).
pub open spec fn dropped_call(m: &Module, v: int) -> Option<usize> {
    if m.is_call(v) && inst_calls(m, v, drop_pattern()) && m.args(v).len() > 0 {
        match first_index(drop_users(m, v).len() as int, |i: int| drop_user_ok(m, v, drop_users(m, v)[i] as int)) {
            Some(i) => Some(drop_users(m, v)[i]),
            None => None,
        }
    } else {
        None
    }
}

/// The users of the value that call `v` drops.
pub open spec fn drop_users(m: &Module, v: int) -> Seq<usize> {
    m.values@[m.args(v)[0] as int].users@
}

/// The cross-contract call of `f` whose promise is dropped: the one found
/// from the first dropping instruction that has one.
pub open spec fn call_site(m: &Module, f: int) -> Option<usize> {
    let is = fn_insts(m, f);
    match first_index(is.len() as int, |k: int| dropped_call(m, is[k] as int) is Some) {
        Some(k) => dropped_call(m, is[k] as int),
        None => None,
    }
}

/// `v` is a store, in user code, through a pointer among `self_users`.
pub open spec fn self_store(m: &Module, v: int, self_users: Seq<bool>) -> bool {
    &&& m.has_opcode(v, Opcode::Store)
    &&& m.operands(v).len() > 1
    &&& self_users[m.operands(v)[1] as int]
    &&& user_loc(m, v)
}

/// `f` stores to a value derived from its first parameter.
pub open spec fn has_self_store(m: &Module, f: int) -> bool {
    let is = fn_insts(m, f);
    exists|k: int|
        0 <= k < is.len() && #[trigger] self_store(
            m,
            is[k] as int,
            users_spec(m, m.functions[f].params@[0] as int, false, false),
        )
}

/// The line recorded for function `f`.
pub open spec fn state_change_before_call_fn(m: &Module, f: int) -> Seq<Seq<char>> {
    if is_lib_name(m, f) || m.functions[f].params@.len() == 0 {
        Seq::empty()
    } else {
        match call_site(m, f) {
            Some(c) => if has_self_store(m, f) {
                seq![loc_line(
                    m.function_name(f),
                    m.debug_loc(c as int).unwrap().filename@,
                    m.debug_loc(c as int).unwrap().line as nat,
                )]
            } else {
                Seq::empty()
            },
            None => Seq::empty(),
        }
    }
}

/// The call that `dropped_call` finds is in user code.
pub proof fn lemma_dropped_call_user_code(m: &Module, v: int)
    requires
        dropped_call(m, v) is Some,
    ensures
        user_loc(m, dropped_call(m, v).unwrap() as int),
{
    lemma_first_index_some(drop_users(m, v).len() as int, |i: int| drop_user_ok(m, v, drop_users(m, v)[i] as int));
}

proof fn lemma_call_site_user_code(m: &Module, f: int)
    requires
        call_site(m, f) is Some,
    ensures
        user_loc(m, call_site(m, f).unwrap() as int),
{
    let is = fn_insts(m, f);
    let k = first_index(is.len() as int, |k: int| dropped_call(m, is[k] as int) is Some).unwrap();
    lemma_dropped_call_user_code(m, is[k] as int);
}

pub fn dropped_call_exec(m: &Module, inst: &InstructionRef, pattern: &str) -> (r: Option<usize>)
    requires
        m.wf(),
        inst.0 < m.values@.len(),
        pattern@ == drop_pattern(),
    ensures
        r == dropped_call(m, inst.0 as int),
        r matches Some(u) ==> u < m.values@.len(),
{
    let v = inst.0;
    if !inst.is_call(m) || !is_inst_call_func(m, inst, pattern) || inst.num_args(m) == 0 {
        return None;
    }
    let drop_arg = inst.get_arg(m, 0);
    let us = value_users(m, drop_arg);
    assert(m.value_wf(drop_arg as int));
    let ghost p = |i: int| drop_user_ok(m, v as int, drop_users(m, v as int)[i] as int);
    let n = us.len();
    for i in 0..n
        invariant
            m.wf(),
            v == inst.0,
            n == us@.len(),
            all_below(us@, m.nvalues()),
            us@ == drop_users(m, v as int),
            m.is_call(v as int),
            inst_calls(m, v as int, drop_pattern()),
            m.args(v as int).len() > 0,
            p == (|i: int| drop_user_ok(m, v as int, drop_users(m, v as int)[i] as int)),
            forall|j: int| 0 <= j < i ==> !#[trigger] p(j),
    {
        let user = us[i];
        let ui = InstructionRef(user);
        if user != v && ui.is_call(m) && has_user_loc(m, &ui) {
            proof {
                lemma_first_index(n as int, p, i as int);
            }
            return Some(user);
        }
    }
    proof {
        lemma_first_index_none(n as int, p);
    }
    None
}

fn call_site_exec(m: &Module, func: &FunctionRef, pattern: &str) -> (r: Option<usize>)
    requires
        m.wf(),
        func.0 < m.functions@.len(),
        pattern@ == drop_pattern(),
    ensures
        r == call_site(m, func.0 as int),
        r matches Some(u) ==> u < m.values@.len(),
{
    let insts = all_instructions(m, func);
    let ghost is = fn_insts(m, func.0 as int);
    let ghost p = |k: int| dropped_call(m, is[k] as int) is Some;
    let n = insts.len();
    for k in 0..n
        invariant
            m.wf(),
            pattern@ == drop_pattern(),
            n == insts@.len(),
            n == is.len(),
            is == fn_insts(m, func.0 as int),
            forall|j: int| 0 <= j < n ==> (#[trigger] insts@[j]).0 == is[j],
            forall|j: int| 0 <= j < n ==> (#[trigger] insts@[j]).0 < m.values@.len(),
            p == (|k: int| dropped_call(m, is[k] as int) is Some),
            forall|j: int| 0 <= j < k ==> !#[trigger] p(j),
    {
        let inst = &insts[k];
        assert(inst.0 == is[k as int]);
        match dropped_call_exec(m, inst, pattern) {
            Some(u) => {
                proof {
                    lemma_first_index(n as int, p, k as int);
                }
                return Some(u);
            },
            None => {},
        }
    }
    proof {
        lemma_first_index_none(n as int, p);
    }
    None
}

fn has_self_store_exec(m: &Module, func: &FunctionRef) -> (r: bool)
    requires
        m.wf(),
        func.0 < m.functions@.len(),
        m.functions@[func.0 as int].params@.len() > 0,
    ensures
        r == has_self_store(m, func.0 as int),
{
    let self_param = func.get_param(m, 0);
    let self_users = users_of(m, self_param, false, false);
    let insts = all_instructions(m, func);
    let ghost is = fn_insts(m, func.0 as int);
    let n = insts.len();
    for k in 0..n
        invariant
            m.wf(),
            n == insts@.len(),
            n == is.len(),
            is == fn_insts(m, func.0 as int),
            forall|j: int| 0 <= j < n ==> (#[trigger] insts@[j]).0 == is[j],
            forall|j: int| 0 <= j < n ==> (#[trigger] insts@[j]).0 < m.values@.len(),
            self_param == m.functions@[func.0 as int].params@[0],
            self_users@ == users_spec(m, self_param as int, false, false),
            self_users@.len() == m.values@.len(),
            forall|j: int| 0 <= j < k ==> !#[trigger] self_store(m, is[j] as int, self_users@),
    {
        let inst = &insts[k];
        assert(inst.0 == is[k as int]);
        if inst.is_store(m) && inst.num_operands(m) > 1 {
            let ptr = inst.get_operand(m, 1);
            if self_users[ptr] && has_user_loc(m, inst) {
                assert(self_store(m, is[k as int] as int, self_users@));
                return true;
            }
        }
    }
    false
}

fn state_change_before_call_in(m: &Module, f: usize, w: &mut TmpWriter)
    requires
        m.wf(),
        f < m.functions@.len(),
    ensures
        final(w).lines_view() == old(w).lines_view() + state_change_before_call_fn(m, f as int),
        final(w).detector == old(w).detector,
{
    let func = FunctionRef(f);
    assert(old(w).lines_view() + Seq::<Seq<char>>::empty() =~= old(w).lines_view());
    if is_lib_func(func.name(m)) || func.param_count(m) == 0 {
        return;
    }
    let c = match call_site_exec(m, &func, promise_drop_in_place()) {
        Some(c) => c,
        None => {
            return;
        },
    };
    if !has_self_store_exec(m, &func) {
        return;
    }
    proof {
        lemma_call_site_user_code(m, f as int);
    }
    let loc = InstructionRef(c).debug_loc(m).unwrap();
    w.write(func.name(m), loc.filename.as_str(), loc.line);
}

/// Records every function that stores to `self` and drops the promise of a
/// cross-contract call, at that call.
pub fn state_change_before_call(m: &Module, w: &mut TmpWriter)
    requires
        m.wf(),
    ensures
        final(w).lines_view() == old(w).lines_view() + module_lines(m, |f: int| state_change_before_call_fn(m, f)),
        final(w).detector == old(w).detector,
{
    let ghost per = |f: int| state_change_before_call_fn(m, f);
    let n = m.functions.len();
    for k in 0..n
        invariant
            m.wf(),
            n == m.functions@.len(),
            per == (|f: int| state_change_before_call_fn(m, f)),
            w.lines_view() == old(w).lines_view() + concat_upto(k as int, per),
            w.detector == old(w).detector,
    {
        state_change_before_call_in(m, k, w);
        proof {
            lemma_concat_upto_step(old(w).lines_view(), k as int, per);
        }
    }
}

} // verus!
