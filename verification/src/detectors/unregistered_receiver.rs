//! unregistered_receiver: do `ft_transfer` / `ft_transfer_call` let tokens go
//! to accounts that are not registered? They do when the receiver flows into a
//! map `get` whose result is unwrapped without a panic (`unwrap_or`,
//! `unwrap_or_default`, `unwrap_unchecked`).
//!
//! Output lines: `funcname@True` (unregistered receivers allowed) or
//! `funcname@False` (guarded).
use vstd::prelude::*;
use crate::ir::{FunctionRef, InstructionRef, Module};
use crate::output::{TmpWriter, bool_line};
use crate::patterns::{is_lib_func, is_match, pattern_matches, ft_transfer_call_standard, ft_transfer_trait,
    ft_transfer_call_trait, map_get, unchecked_unwrap};
use crate::callgraph::{inst_calls, is_inst_call_func};
use crate::users::{users_of, users_spec, empty_set};
use super::common::{concat_upto, lemma_concat_upto_step, module_lines, is_lib_name, first_index};
use super::nft_approval_check::first_arg_in;

verus! {

pub open spec fn ft_standard_pattern() -> Seq<char> {
    r"near_contract_standards.+fungible_token.+core_impl.+FungibleToken.+[0-9](ft_transfer(_call)?|internal_transfer)[0-9]"@
}

pub open spec fn map_get_pattern() -> Seq<char> {
    r"near_sdk[0-9]+collections[0-9]+(lookup_map[0-9]+LookupMap|tree_map[0-9]+TreeMap|unordered_map[0-9]+UnorderedMap|legacy_tree_map[0-9]+LegacyTreeMap)\$.+[0-9]+get[0-9]+"@
}

pub open spec fn unchecked_unwrap_pattern() -> Seq<char> {
    r"core[0-9]+(option[0-9]+Option|result[0-9]+Result)\$.+[0-9]+(unwrap_or|unwrap_or_default|unwrap_unchecked)[0-9]+"@
}

/// Where a map `get` call leaves its result: the call itself for
/// `get(self, key)`, its first argument for `get(ret, self, key)`.
pub open spec fn get_result(m: &Module, u: int) -> Option<usize> {
    if m.args(u).len() == 2 {
        Some(u as usize)
    } else if m.args(u).len() == 3 {
        Some(m.args(u)[0])
    } else {
        None
    }
}

/// Some user of `ret` calls an unchecked unwrap.
pub open spec fn unwrapped_unchecked(m: &Module, ret: int) -> bool {
    let us = users_spec(m, ret, false, false);
    exists|g: int| 0 <= g < m.nvalues() && #[trigger] us[g] && m.is_call(g) && inst_calls(m, g, unchecked_unwrap_pattern())
}

/// The receiver, used in function `f`, reaches an unchecked map lookup
/// (`depth` levels of calls deep); `vis` marks receivers already examined.
pub open spec fn allow_rec(m: &Module, f: int, recv: int, depth: int, vis: Seq<bool>) -> bool
    decreases depth + 1, m.nvalues() + 2,
{
    if depth < 0 || vis[recv] {
        false
    } else if pattern_matches(ft_standard_pattern(), m.function_name(f)) {
        true
    } else {
        allow_from(m, users_spec(m, recv, false, true), 0, depth)
    }
}

/// Some user from index `u` on, among the users `ur` of the receiver, lets it through.
pub open spec fn allow_from(m: &Module, ur: Seq<bool>, u: int, depth: int) -> bool
    decreases depth + 1, m.nvalues() - u + 1,
{
    if depth < 0 || u < 0 || u >= m.nvalues() {
        false
    } else {
        (ur[u] && user_allows(m, ur, u, depth)) || allow_from(m, ur, u + 1, depth)
    }
}

/// The user `u` of the receiver lets it through: a map `get` whose result is
/// unwrapped unchecked, or a call passing the receiver on to a function that
/// lets it through.
pub open spec fn user_allows(m: &Module, ur: Seq<bool>, u: int, depth: int) -> bool
    decreases depth + 1, 0int,
{
    if depth < 0 || !m.is_call(u) {
        false
    } else if inst_calls(m, u, map_get_pattern()) {
        match get_result(m, u) {
            Some(ret) => unwrapped_unchecked(m, ret as int),
            None => false,
        }
    } else {
        match first_index(m.args(u).len() as int, |j: int| ur[m.args(u)[j] as int]) {
            Some(off) => match m.called_function(u) {
                Some(g) => off < m.functions[g as int].params@.len() && allow_rec(
                    m,
                    g as int,
                    m.functions[g as int].params@[off] as int,
                    depth - 1,
                    Seq::new(m.values@.len(), |k: int| false),
                ),
                None => false,
            },
            None => false,
        }
    }
}

fn some_unchecked_unwrap(m: &Module, ret: usize) -> (r: bool)
    requires
        m.wf(),
        ret < m.values@.len(),
    ensures
        r == unwrapped_unchecked(m, ret as int),
{
    let us = users_of(m, ret, false, false);
    let pat = unchecked_unwrap();
    let n = m.values.len();
    for g in 0..n
        invariant
            m.wf(),
            n == m.values@.len(),
            us@ == users_spec(m, ret as int, false, false),
            us@.len() == n,
            pat@ == unchecked_unwrap_pattern(),
            forall|h: int| 0 <= h < g ==> !(#[trigger] us@[h] && m.is_call(h) && inst_calls(m, h, unchecked_unwrap_pattern())),
    {
        let gi = InstructionRef(g);
        if us[g] && gi.is_call(m) && is_inst_call_func(m, &gi, pat) {
            return true;
        }
    }
    false
}

fn user_allows_exec(m: &Module, ur: &Vec<bool>, u: usize, depth: i32) -> (r: bool)
    requires
        m.wf(),
        u < m.values@.len(),
        ur@.len() == m.values@.len(),
    ensures
        r == user_allows(m, ur@, u as int, depth as int),
    decreases depth + 1, 0int,
{
    let ui = InstructionRef(u);
    if depth < 0 || !ui.is_call(m) {
        return false;
    }
    if is_inst_call_func(m, &ui, map_get()) {
        let nargs = ui.num_args(m);
        if nargs == 2 {
            some_unchecked_unwrap(m, u)
        } else if nargs == 3 {
            some_unchecked_unwrap(m, ui.get_arg(m, 0))
        } else {
            false
        }
    } else {
        match first_arg_in(m, &ui, ur) {
            Some(off) => match m.direct_callee(u) {
                Some(g) => {
                    let gf = FunctionRef(g);
                    if gf.param_count(m) > off {
                        let next = gf.get_param(m, off);
                        let mut fresh = empty_set(m);
                        assert(fresh@ == Seq::new(m.values@.len(), |k: int| false));
                        allow_unregistered_receiver(m, &gf, next, depth - 1, &mut fresh)
                    } else {
                        false
                    }
                },
                None => false,
            },
            None => false,
        }
    }
}

/// True if `receiver`, when used in `func`, flows into a map lookup whose
/// result is unwrapped without a panic, in `func` or in a function it passes
/// the receiver to (within `depth` levels). The standard implementation is
/// treated as letting receivers through.
pub fn allow_unregistered_receiver(
    m: &Module,
    func: &FunctionRef,
    receiver: usize,
    depth: i32,
    visited: &mut Vec<bool>,
) -> (r: bool)
    requires
        m.wf(),
        func.0 < m.functions@.len(),
        receiver < m.values@.len(),
        old(visited)@.len() == m.values@.len(),
    ensures
        r == allow_rec(m, func.0 as int, receiver as int, depth as int, old(visited)@),
        final(visited)@ == if depth < 0 || old(visited)@[receiver as int] {
            old(visited)@
        } else {
            old(visited)@.update(receiver as int, true)
        },
    decreases depth + 1, 1int,
{
    if depth < 0 || visited[receiver] {
        return false;
    }
    visited.set(receiver, true);
    if is_match(ft_transfer_call_standard(), func.name(m)) {
        return true;
    }
    let ur = users_of(m, receiver, false, true);
    let n = m.values.len();
    let mut u: usize = 0;
    while u < n
        invariant
            m.wf(),
            depth >= 0,
            n == m.values@.len(),
            ur@.len() == n,
            u <= n,
            allow_from(m, ur@, u as int, depth as int) == allow_from(m, ur@, 0, depth as int),
            allow_rec(m, func.0 as int, receiver as int, depth as int, old(visited)@)
                == allow_from(m, ur@, 0, depth as int),
            receiver < n,
            visited@ == old(visited)@.update(receiver as int, true),
        decreases n - u,
    {
        if ur[u] && user_allows_exec(m, &ur, u, depth) {
            return true;
        }
        u += 1;
    }
    false
}

pub open spec fn ft_transfer_trait_pattern() -> Seq<char> {
    r"near_contract_standards\.\.fungible_token\.\.core\.\.FungibleTokenCore\$.+[0-9]ft_transfer[0-9]"@
}

pub open spec fn ft_transfer_call_trait_pattern() -> Seq<char> {
    r"near_contract_standards\.\.fungible_token\.\.core\.\.FungibleTokenCore\$.+[0-9]ft_transfer_call[0-9]"@
}

/// The line for a transfer function whose receiver is parameter `p`.
pub open spec fn receiver_line(m: &Module, f: int, p: int) -> Seq<Seq<char>> {
    let params = m.functions[f].params@;
    if params.len() < 3 {
        Seq::empty()
    } else {
        seq![bool_line(
            m.function_name(f),
            allow_rec(m, f, params[p] as int, 5, Seq::new(m.values@.len(), |k: int| false)),
        )]
    }
}

/// The line recorded for function `f`: receivers are parameter 1 of
/// `ft_transfer` and parameter 2 of `ft_transfer_call`.
pub open spec fn unregistered_receiver_fn(m: &Module, f: int) -> Seq<Seq<char>> {
    if is_lib_name(m, f) {
        Seq::empty()
    } else if pattern_matches(ft_transfer_trait_pattern(), m.function_name(f)) {
        receiver_line(m, f, 1)
    } else if pattern_matches(ft_transfer_call_trait_pattern(), m.function_name(f)) {
        receiver_line(m, f, 2)
    } else {
        Seq::empty()
    }
}

fn check_receiver(m: &Module, f: usize, p: usize, w: &mut TmpWriter)
    requires
        m.wf(),
        f < m.functions@.len(),
        p < 3,
    ensures
        final(w).lines_view() == old(w).lines_view() + receiver_line(m, f as int, p as int),
        final(w).detector == old(w).detector,
{
    let func = FunctionRef(f);
    if func.param_count(m) < 3 {
        assert(old(w).lines_view() + Seq::<Seq<char>>::empty() == old(w).lines_view());
        return;
    }
    let receiver = func.get_param(m, p);
    let mut fresh = empty_set(m);
    assert(fresh@ == Seq::new(m.values@.len(), |k: int| false));
    let allowed = allow_unregistered_receiver(m, &func, receiver, 5, &mut fresh);
    w.write_bool(func.name(m), allowed);
}

fn unregistered_receiver_in(m: &Module, f: usize, w: &mut TmpWriter)
    requires
        m.wf(),
        f < m.functions@.len(),
    ensures
        final(w).lines_view() == old(w).lines_view() + unregistered_receiver_fn(m, f as int),
        final(w).detector == old(w).detector,
{
    let func = FunctionRef(f);
    let name = func.name(m);
    assert(old(w).lines_view() + Seq::<Seq<char>>::empty() == old(w).lines_view());
    if is_lib_func(name) {
        return;
    }
    if is_match(ft_transfer_trait(), name) {
        check_receiver(m, f, 1, w);
    } else if is_match(ft_transfer_call_trait(), name) {
        check_receiver(m, f, 2, w);
    }
}

/// Records, for every `ft_transfer` / `ft_transfer_call` implementation,
/// whether unregistered receivers are let through (`True`) or refused
/// (`False`).
pub fn unregistered_receiver(m: &Module, w: &mut TmpWriter)
    requires
        m.wf(),
    ensures
        final(w).lines_view() == old(w).lines_view() + module_lines(m, |f: int| unregistered_receiver_fn(m, f)),
        final(w).detector == old(w).detector,
{
    let ghost per = |f: int| unregistered_receiver_fn(m, f);
    let n = m.functions.len();
    for k in 0..n
        invariant
            m.wf(),
            n == m.functions@.len(),
            per == (|f: int| unregistered_receiver_fn(m, f)),
            w.lines_view() == old(w).lines_view() + concat_upto(k as int, per),
            w.detector == old(w).detector,
    {
        unregistered_receiver_in(m, k, w);
        proof {
            lemma_concat_upto_step(old(w).lines_view(), k as int, per);
        }
    }
}

} // verus!
