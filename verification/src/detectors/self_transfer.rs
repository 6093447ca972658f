//! self_transfer: does an `ft_transfer` / `ft_transfer_call` implementation
//! check `sender_id != receiver_id`?
//!
//! Output lines: `funcname@True` (checked) or `funcname@False`.
use vstd::prelude::*;
use crate::ir::{FunctionRef, InstructionRef, Module, all_instructions, fn_insts, value_type_string};
use crate::output::{TmpWriter, bool_line};
use crate::patterns::{is_match, pattern_matches, ft_transfer_call_standard, ft_transfer_trait, ft_transfer_call_trait,
    partial_eq};
use crate::callgraph::{inst_calls, is_inst_call_func};
use crate::users::{users_of, users_spec};
use crate::text::{contains, str_contains};
use super::common::{concat_upto, lemma_concat_upto_step, module_lines, first_index};
use super::nft_approval_check::{first_arg_in, partial_eq_pattern};
use super::unregistered_receiver::{ft_standard_pattern, ft_transfer_trait_pattern, ft_transfer_call_trait_pattern};

verus! {

pub open spec fn account_id_type() -> Seq<char> {
    "near_sdk::types::account_id::AccountId"@
}

pub open spec fn string_type() -> Seq<char> {
    "alloc::string::String"@
}

/// Some argument of the call `v` has an `AccountId` or `String` type.
pub open spec fn compares_accounts(m: &Module, v: int) -> bool {
    exists|j: int| 0 <= j < m.args(v).len() && (contains(m.type_text(#[trigger] m.args(v)[j] as int), account_id_type())
        || contains(m.type_text(m.args(v)[j] as int), string_type()))
}

/// The search in `f`, whose parameter `off` is the receiver, for a
/// sender/receiver comparison; `fuel` bounds how deep it follows the receiver
/// into called functions.
pub open spec fn sender_rec(m: &Module, f: int, off: int, fuel: nat) -> bool
    decreases fuel, fn_insts(m, f).len() + 1,
{
    let params = m.functions[f].params@;
    if pattern_matches(ft_standard_pattern(), m.function_name(f)) {
        true
    } else if params.len() <= off {
        false
    } else {
        sender_insts(m, fn_insts(m, f), 0, users_spec(m, params[off] as int, false, false), fuel)
    }
}

pub open spec fn sender_insts(m: &Module, is: Seq<usize>, i: int, ru: Seq<bool>, fuel: nat) -> bool
    decreases fuel, is.len() - i,
{
    if i < 0 || i >= is.len() {
        false
    } else {
        let v = is[i] as int;
        if inst_calls(m, v, partial_eq_pattern()) {
            compares_accounts(m, v) || sender_insts(m, is, i + 1, ru, fuel)
        } else if m.is_call(v) && m.called_function(v) is Some && fuel > 0 {
            let g = m.called_function(v).unwrap() as int;
            match first_index(m.args(v).len() as int, |j: int| ru[m.args(v)[j] as int]) {
                Some(o) => (m.function_name(g).len() != 0 && sender_rec(m, g, o, (fuel - 1) as nat))
                    || sender_insts(m, is, i + 1, ru, fuel),
                None => sender_insts(m, is, i + 1, ru, fuel),
            }
        } else {
            sender_insts(m, is, i + 1, ru, fuel)
        }
    }
}

/// The search in `f` finishes within `fuel` levels without cutting off a call
/// it would follow the receiver into.
pub open spec fn sender_ends(m: &Module, f: int, off: int, fuel: nat) -> bool
    decreases fuel, fn_insts(m, f).len() + 1,
{
    let params = m.functions[f].params@;
    if pattern_matches(ft_standard_pattern(), m.function_name(f)) || params.len() <= off {
        true
    } else {
        sender_insts_ends(m, fn_insts(m, f), 0, users_spec(m, params[off] as int, false, false), fuel)
    }
}

pub open spec fn sender_insts_ends(m: &Module, is: Seq<usize>, i: int, ru: Seq<bool>, fuel: nat) -> bool
    decreases fuel, is.len() - i,
{
    if i < 0 || i >= is.len() {
        true
    } else {
        let v = is[i] as int;
        if inst_calls(m, v, partial_eq_pattern()) {
            compares_accounts(m, v) || sender_insts_ends(m, is, i + 1, ru, fuel)
        } else if m.is_call(v) && m.called_function(v) is Some {
            let g = m.called_function(v).unwrap() as int;
            match first_index(m.args(v).len() as int, |j: int| ru[m.args(v)[j] as int]) {
                Some(o) => if m.function_name(g).len() != 0 {
                    fuel > 0 && sender_ends(m, g, o, (fuel - 1) as nat) && (sender_rec(m, g, o, (fuel - 1) as nat)
                        || sender_insts_ends(m, is, i + 1, ru, fuel))
                } else {
                    sender_insts_ends(m, is, i + 1, ru, fuel)
                },
                None => sender_insts_ends(m, is, i + 1, ru, fuel),
            }
        } else {
            sender_insts_ends(m, is, i + 1, ru, fuel)
        }
    }
}

proof fn lemma_sender_final(m: &Module, f: int, off: int, fuel: nat, fuel2: nat)
    requires
        sender_ends(m, f, off, fuel),
        fuel2 >= fuel,
    ensures
        sender_ends(m, f, off, fuel2),
        sender_rec(m, f, off, fuel2) == sender_rec(m, f, off, fuel),
    decreases fuel, fn_insts(m, f).len() + 1,
{
    let params = m.functions[f].params@;
    if !(pattern_matches(ft_standard_pattern(), m.function_name(f)) || params.len() <= off) {
        lemma_insts_final(m, fn_insts(m, f), 0, users_spec(m, params[off] as int, false, false), fuel, fuel2);
    }
}

proof fn lemma_insts_final(m: &Module, is: Seq<usize>, i: int, ru: Seq<bool>, fuel: nat, fuel2: nat)
    requires
        sender_insts_ends(m, is, i, ru, fuel),
        fuel2 >= fuel,
    ensures
        sender_insts_ends(m, is, i, ru, fuel2),
        sender_insts(m, is, i, ru, fuel2) == sender_insts(m, is, i, ru, fuel),
    decreases fuel, is.len() - i,
{
    if !(i < 0 || i >= is.len()) {
        let v = is[i] as int;
        if inst_calls(m, v, partial_eq_pattern()) {
            if !compares_accounts(m, v) {
                lemma_insts_final(m, is, i + 1, ru, fuel, fuel2);
            }
        } else if m.is_call(v) && m.called_function(v) is Some {
            let g = m.called_function(v).unwrap() as int;
            match first_index(m.args(v).len() as int, |j: int| ru[m.args(v)[j] as int]) {
                Some(o) => if m.function_name(g).len() != 0 {
                    lemma_sender_final(m, g, o, (fuel - 1) as nat, (fuel2 - 1) as nat);
                    if !sender_rec(m, g, o, (fuel - 1) as nat) {
                        lemma_insts_final(m, is, i + 1, ru, fuel, fuel2);
                    }
                } else {
                    lemma_insts_final(m, is, i + 1, ru, fuel, fuel2);
                },
                None => {
                    lemma_insts_final(m, is, i + 1, ru, fuel, fuel2);
                },
            }
        } else {
            lemma_insts_final(m, is, i + 1, ru, fuel, fuel2);
        }
    }
}

/// Once the receiver search finishes within `fuel` levels without cutting off
/// a call, going deeper changes nothing: the search with any more fuel
/// finishes too, with the same answer.
pub proof fn lemma_sender_fuel_final(m: &Module, f: int, off: int, fuel: nat, fuel2: nat)
    requires
        sender_ends(m, f, off, fuel),
        fuel2 >= fuel,
    ensures
        sender_ends(m, f, off, fuel2),
        sender_rec(m, f, off, fuel2) == sender_rec(m, f, off, fuel),
{
    lemma_sender_final(m, f, off, fuel, fuel2);
}

proof fn lemma_insts_find_eq(m: &Module, is: Seq<usize>, i: int, k: int, ru: Seq<bool>, fuel: nat)
    requires
        0 <= i <= k < is.len(),
        inst_calls(m, is[k] as int, partial_eq_pattern()),
        compares_accounts(m, is[k] as int),
    ensures
        sender_insts(m, is, i, ru, fuel),
    decreases k - i,
{
    if i < k {
        lemma_insts_find_eq(m, is, i + 1, k, ru, fuel);
    }
}

/// A comparison of account ids is a sender/receiver check: when function `f`
/// has a receiver parameter at `off` and calls `PartialEq` on an argument
/// whose type is an `AccountId` or a `String`, the search in `f` answers
/// true, at any depth.
pub proof fn lemma_account_compare_is_check(m: &Module, f: int, off: int, k: int, j: int, fuel: nat)
    requires
        0 <= off < m.functions[f].params@.len(),
        0 <= k < fn_insts(m, f).len(),
        inst_calls(m, fn_insts(m, f)[k] as int, partial_eq_pattern()),
        0 <= j < m.args(fn_insts(m, f)[k] as int).len(),
        contains(m.type_text(m.args(fn_insts(m, f)[k] as int)[j] as int), "near_sdk::types::account_id::AccountId"@)
            || contains(m.type_text(m.args(fn_insts(m, f)[k] as int)[j] as int), "alloc::string::String"@),
    ensures
        sender_rec(m, f, off, fuel),
{
    let v = fn_insts(m, f)[k] as int;
    assert(compares_accounts(m, v)) by {
        assert(contains(m.type_text(m.args(v)[j] as int), account_id_type())
            || contains(m.type_text(m.args(v)[j] as int), string_type()));
    }
    if !pattern_matches(ft_standard_pattern(), m.function_name(f)) {
        let params = m.functions[f].params@;
        lemma_insts_find_eq(m, fn_insts(m, f), 0, k, users_spec(m, params[off] as int, false, false), fuel);
    }
}

fn compares_accounts_exec(m: &Module, inst: &InstructionRef) -> (r: bool)
    requires
        m.wf(),
        inst.0 < m.values@.len(),
    ensures
        r == compares_accounts(m, inst.0 as int),
{
    let v = inst.0;
    let n = inst.num_args(m);
    proof {
        reveal_strlit("near_sdk::types::account_id::AccountId");
        reveal_strlit("alloc::string::String");
    }
    for j in 0..n
        invariant
            m.wf(),
            v == inst.0,
            v < m.values@.len(),
            n == m.args(v as int).len(),
            forall|t: int| 0 <= t < j ==> !(contains(m.type_text(#[trigger] m.args(v as int)[t] as int), account_id_type())
                || contains(m.type_text(m.args(v as int)[t] as int), string_type())),
    {
        let ty = inst.arg_type_string(m, j);
        if str_contains(ty.as_str(), "near_sdk::types::account_id::AccountId")
            || str_contains(ty.as_str(), "alloc::string::String") {
            return true;
        }
    }
    false
}

fn sender_rec_exec(m: &Module, func: &FunctionRef, off: usize, fuel: usize) -> (r: bool)
    requires
        m.wf(),
        func.0 < m.functions@.len(),
    ensures
        r == sender_rec(m, func.0 as int, off as int, fuel as nat),
    decreases fuel, 1int,
{
    if is_match(ft_transfer_call_standard(), func.name(m)) {
        return true;
    }
    if func.param_count(m) <= off {
        return false;
    }
    let recv = func.get_param(m, off);
    let ru = users_of(m, recv, false, false);
    let insts = all_instructions(m, func);
    let ghost is = fn_insts(m, func.0 as int);
    sender_insts_exec(m, &insts, Ghost(is), &ru, fuel)
}

fn sender_insts_exec(m: &Module, insts: &Vec<InstructionRef>, Ghost(is): Ghost<Seq<usize>>, ru: &Vec<bool>, fuel: usize) -> (r: bool)
    requires
        m.wf(),
        insts@.len() == is.len(),
        forall|j: int| 0 <= j < is.len() ==> (#[trigger] insts@[j]).0 == is[j],
        forall|j: int| 0 <= j < is.len() ==> (#[trigger] insts@[j]).0 < m.values@.len(),
        ru@.len() == m.values@.len(),
    ensures
        r == sender_insts(m, is, 0, ru@, fuel as nat),
    decreases fuel, 0int,
{
    let eq = partial_eq();
    let n = insts.len();
    let mut k: usize = 0;
    while k < n
        invariant
            m.wf(),
            eq@ == partial_eq_pattern(),
            n == insts@.len(),
            n == is.len(),
            forall|j: int| 0 <= j < n ==> (#[trigger] insts@[j]).0 == is[j],
            forall|j: int| 0 <= j < n ==> (#[trigger] insts@[j]).0 < m.values@.len(),
            ru@.len() == m.values@.len(),
            k <= n,
            sender_insts(m, is, k as int, ru@, fuel as nat) == sender_insts(m, is, 0, ru@, fuel as nat),
        decreases n - k,
    {
        let inst = &insts[k];
        assert(inst.0 == is[k as int]);
        if is_inst_call_func(m, inst, eq) {
            if compares_accounts_exec(m, inst) {
                return true;
            }
        } else if inst.is_call(m) && fuel > 0 {
            match m.direct_callee(inst.0) {
                Some(g) => {
                    match first_arg_in(m, inst, ru) {
                        Some(o) => {
                            let gf = FunctionRef(g);
                            if !gf.name(m).is_empty() && sender_rec_exec(m, &gf, o, fuel - 1) {
                                return true;
                            }
                        },
                        None => {},
                    }
                },
                None => {},
            }
        }
        k += 1;
    }
    false
}

/// The number of parameters of the first `k` functions.
pub open spec fn params_upto(m: &Module, k: int) -> nat
    decreases k,
{
    if k <= 0 {
        0
    } else {
        params_upto(m, k - 1) + m.functions[k - 1].params@.len()
    }
}

/// How many nested calls the receiver is followed through: one per pair of a
/// function and one of its parameters (as many as `usize` holds). A deeper
/// chain would pass the receiver to the same parameter of the same function
/// twice, and from there the search would repeat itself without end.
pub open spec fn receiver_fuel(m: &Module) -> nat {
    let s = params_upto(m, m.functions@.len() as int);
    if s > usize::MAX { usize::MAX as nat } else { s }
}

fn receiver_fuel_exec(m: &Module) -> (r: usize)
    ensures
        r == receiver_fuel(m),
{
    let n = m.functions.len();
    let mut s: usize = 0;
    for k in 0..n
        invariant
            n == m.functions@.len(),
            s == (if params_upto(m, k as int) > usize::MAX { usize::MAX as nat } else { params_upto(m, k as int) }),
    {
        let p = m.functions[k].params.len();
        s = s.saturating_add(p);
    }
    s
}

/// True if `func` (or a function it passes the receiver on to) compares two
/// `AccountId` or `String` values; `receiver_offset` is the index of the
/// receiver parameter. The receiver is followed through as many nested calls
/// as there are pairs of a function and one of its parameters; when the search
/// finishes within that depth, no deeper search answers otherwise
/// (`lemma_sender_fuel_final`).
pub fn has_sender_receiver_check(m: &Module, func: &FunctionRef, receiver_offset: usize) -> (r: bool)
    requires
        m.wf(),
        func.0 < m.functions@.len(),
    ensures
        r == sender_rec(m, func.0 as int, receiver_offset as int, receiver_fuel(m)),
{
    let fuel = receiver_fuel_exec(m);
    sender_rec_exec(m, func, receiver_offset, fuel)
}

/// The line for a transfer function whose receiver is parameter `p`.
pub open spec fn sender_line(m: &Module, f: int, p: int) -> Seq<Seq<char>> {
    if m.functions[f].params@.len() < 3 {
        Seq::empty()
    } else {
        seq![bool_line(m.function_name(f), sender_rec(m, f, p, receiver_fuel(m)))]
    }
}

/// The line recorded for function `f` (library functions included).
pub open spec fn self_transfer_fn(m: &Module, f: int) -> Seq<Seq<char>> {
    if pattern_matches(ft_transfer_trait_pattern(), m.function_name(f)) {
        sender_line(m, f, 1)
    } else if pattern_matches(ft_transfer_call_trait_pattern(), m.function_name(f)) {
        sender_line(m, f, 2)
    } else {
        Seq::empty()
    }
}

fn check_sender(m: &Module, f: usize, p: usize, w: &mut TmpWriter)
    requires
        m.wf(),
        f < m.functions@.len(),
    ensures
        final(w).lines_view() == old(w).lines_view() + sender_line(m, f as int, p as int),
        final(w).detector == old(w).detector,
{
    let func = FunctionRef(f);
    if func.param_count(m) < 3 {
        assert(old(w).lines_view() + Seq::<Seq<char>>::empty() == old(w).lines_view());
        return;
    }
    let ok = has_sender_receiver_check(m, &func, p);
    w.write_bool(func.name(m), ok);
}

fn self_transfer_in(m: &Module, f: usize, w: &mut TmpWriter)
    requires
        m.wf(),
        f < m.functions@.len(),
    ensures
        final(w).lines_view() == old(w).lines_view() + self_transfer_fn(m, f as int),
        final(w).detector == old(w).detector,
{
    let func = FunctionRef(f);
    let name = func.name(m);
    if is_match(ft_transfer_trait(), name) {
        check_sender(m, f, 1, w);
    } else if is_match(ft_transfer_call_trait(), name) {
        check_sender(m, f, 2, w);
    } else {
        assert(old(w).lines_view() + Seq::<Seq<char>>::empty() == old(w).lines_view());
    }
}

/// Records, for every `ft_transfer` / `ft_transfer_call` implementation,
/// whether it checks that sender and receiver differ.
pub fn self_transfer(m: &Module, w: &mut TmpWriter)
    requires
        m.wf(),
    ensures
        final(w).lines_view() == old(w).lines_view() + module_lines(m, |f: int| self_transfer_fn(m, f)),
        final(w).detector == old(w).detector,
{
    let ghost per = |f: int| self_transfer_fn(m, f);
    let n = m.functions.len();
    for k in 0..n
        invariant
            m.wf(),
            n == m.functions@.len(),
            per == (|f: int| self_transfer_fn(m, f)),
            w.lines_view() == old(w).lines_view() + concat_upto(k as int, per),
            w.detector == old(w).detector,
    {
        self_transfer_in(m, k, w);
        proof {
            lemma_concat_upto_step(old(w).lines_view(), k as int, per);
        }
    }
}

} // verus!
