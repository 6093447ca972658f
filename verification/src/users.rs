//! Transitive users of a value (`simple_find_users`).
//!
//! A set of values is a `Vec<bool>` with one mark per value of the module.
//! Starting from a value, the search marks it, follows call arguments into
//! the parameters of the called function, follows the source of an `into`
//! conversion, follows the pointer operand of a store, and then visits every
//! user in use-list order. The order matters: with `restrict_cross_fn`, a
//! parameter is followed only when the matching argument is already marked at
//! that moment. `find_users` states this search; `fuel` bounds its depth and
//! never runs out at the depth the public function gives it (see
//! `lemma_find_users_fuel`). What the search collects is closed under use
//! (`lemma_users_closed`, and from any starting set
//! `lemma_find_users_closed`), and searching again changes nothing
//! (`lemma_find_users_idempotent`).
use vstd::prelude::*;
use crate::ir::{Module, Opcode, TypeKind, all_below};
use crate::text::{contains, str_contains};
use crate::reach::{grows, unvisited, lemma_unvisited_bound, lemma_unvisited_mono, lemma_unvisited_update, lemma_unvisited_zero};

verus! {

/// The value has no type, or a label type; the search stops at such values.
pub open spec fn stops_search(m: &Module, v: int) -> bool {
    match m.values[v].ty {
        Some(t) => t.kind is Label,
        None => true,
    }
}

/// Name fragment of the `Into::into` conversions whose source the search follows.
pub open spec fn into_marker() -> Seq<char> {
    seq!['c', 'o', 'r', 'e', '.', '.', 'c', 'o', 'n', 'v', 'e', 'r', 't', '.', '.', 'I', 'n', 't', 'o']
}

/// The marks after searching from `v` with marks `s`.
pub open spec fn find_users(
    m: &Module,
    v: int,
    s: Seq<bool>,
    restrict: bool,
    disable: bool,
    fuel: nat,
) -> Seq<bool>
    decreases fuel, 0int,
{
    if !m.valid(v) || stops_search(m, v) || s[v] || fuel == 0 {
        s
    } else {
        let s1 = s.update(v, true);
        let f1 = (fuel - 1) as nat;
        let s2 = find_users_step(m, v, s1, restrict, disable, f1);
        find_users_list(m, m.values[v].users@, 0, s2, restrict, disable, f1)
    }
}

/// The marks after following what value `v` itself leads to: the parameters of
/// its callee and an `into` source for a call, the pointer operand for a store.
pub open spec fn find_users_step(
    m: &Module,
    v: int,
    s1: Seq<bool>,
    restrict: bool,
    disable: bool,
    f1: nat,
) -> Seq<bool>
    decreases f1, m.args(v).len() + 1,
{
    let args = m.args(v);
    if m.is_call(v) {
        match m.called_function(v) {
            Some(f) => if disable {
                s1
            } else {
                let sp = find_users_params(m, v, f as int, 0, s1, restrict, disable, f1);
                if contains(m.function_name(f as int), into_marker()) && args.len() >= 2
                    && sp[args[1] as int] {
                    find_users(m, args[0] as int, sp, restrict, disable, f1)
                } else {
                    sp
                }
            },
            None => s1,
        }
    } else if m.has_opcode(v, Opcode::Store) && m.operands(v).len() > 1 {
        find_users(m, m.operands(v)[1] as int, s1, restrict, disable, f1)
    } else {
        s1
    }
}

/// The marks after following arguments `i..` of call `v` into function `f`.
pub open spec fn find_users_params(
    m: &Module,
    v: int,
    f: int,
    i: int,
    s: Seq<bool>,
    restrict: bool,
    disable: bool,
    fuel: nat,
) -> Seq<bool>
    decreases fuel, m.args(v).len() - i,
{
    if i < 0 || i >= m.args(v).len() {
        s
    } else {
        let a = m.args(v)[i];
        let params = m.functions[f].params@;
        let s1 = if (!restrict || s[a as int]) && i < params.len() {
            find_users(m, params[i] as int, s, restrict, disable, fuel)
        } else {
            s
        };
        find_users_params(m, v, f, i + 1, s1, restrict, disable, fuel)
    }
}

/// The marks after searching from each of `us[i..]` in turn.
pub open spec fn find_users_list(
    m: &Module,
    us: Seq<usize>,
    i: int,
    s: Seq<bool>,
    restrict: bool,
    disable: bool,
    fuel: nat,
) -> Seq<bool>
    decreases fuel, us.len() - i,
{
    if i < 0 || i >= us.len() {
        s
    } else {
        let s1 = find_users(m, us[i] as int, s, restrict, disable, fuel);
        find_users_list(m, us, i + 1, s1, restrict, disable, fuel)
    }
}

fn find_users_rec(
    m: &Module,
    v: usize,
    set: &mut Vec<bool>,
    restrict: bool,
    disable: bool,
    fuel: usize,
)
    requires
        m.wf(),
        v < m.values@.len(),
        old(set)@.len() == m.values@.len(),
    ensures
        final(set)@ == find_users(m, v as int, old(set)@, restrict, disable, fuel as nat),
        final(set)@.len() == m.values@.len(),
    decreases fuel,
{
    let ghost s0 = set@;
    let stop = match &m.values[v].ty {
        Some(t) => match t.kind {
            TypeKind::Label => true,
            _ => false,
        },
        None => true,
    };
    if stop || set[v] || fuel == 0 {
        return;
    }
    set.set(v, true);
    let ghost s1 = set@;
    assert(m.value_wf(v as int));
    let f1 = fuel - 1;
    let is_call = match m.inst_data(v) {
        Some(i) => match i.opcode {
            Opcode::Call | Opcode::Invoke => true,
            _ => false,
        },
        None => false,
    };
    if is_call {
        let i = m.inst_data(v).unwrap();
        match m.direct_callee(v) {
            Some(f) => {
                if !disable {
                    assert(m.function_wf(f as int));
                    let params = &m.functions[f].params;
                    let n = i.args.len();
                    let mut k: usize = 0;
                    while k < n
                        invariant
                            m.wf(),
                            fuel > 0,
                            f1 == fuel - 1,
                            m.inst(v as int) == Some(*i),
                            n == i.args@.len(),
                            f < m.functions@.len(),
                            params@ == m.functions@[f as int].params@,
                            all_below(i.args@, m.nvalues()),
                            all_below(params@, m.nvalues()),
                            k <= n,
                            set@.len() == m.values@.len(),
                            find_users_params(m, v as int, f as int, k as int, set@, restrict, disable, f1 as nat)
                                == find_users_params(m, v as int, f as int, 0, s1, restrict, disable, f1 as nat),
                        decreases n - k,
                    {
                        let a = i.args[k];
                        if (!restrict || set[a]) && k < params.len() {
                            find_users_rec(m, params[k], set, restrict, disable, f1);
                        }
                        k += 1;
                    }
                    let ghost sp = set@;
                    assert(sp == find_users_params(m, v as int, f as int, 0, s1, restrict, disable, f1 as nat));
                    let name = m.values[m.functions[f].value].name.as_str();
                    proof {
                        reveal_strlit("core..convert..Into");
                        assert("core..convert..Into"@ == into_marker());
                    }
                    if str_contains(name, "core..convert..Into") && n >= 2 {
                        if set[i.args[1]] {
                            find_users_rec(m, i.args[0], set, restrict, disable, f1);
                        }
                    }
                }
            },
            None => {},
        }
    } else {
        match m.inst_data(v) {
            Some(i) => {
                match i.opcode {
                    Opcode::Store => {
                        if i.operands.len() > 1 {
                            find_users_rec(m, i.operands[1], set, restrict, disable, f1);
                        }
                    },
                    _ => {},
                }
            },
            None => {},
        }
    }
    let ghost s2 = set@;
    assert(s2 == find_users_step(m, v as int, s1, restrict, disable, f1 as nat));
    let users = &m.values[v].users;
    let n = users.len();
    let mut k: usize = 0;
    while k < n
        invariant
            m.wf(),
            fuel > 0,
            f1 == fuel - 1,
            v < m.values@.len(),
            n == users@.len(),
            users@ == m.values@[v as int].users@,
            all_below(users@, m.nvalues()),
            k <= n,
            set@.len() == m.values@.len(),
            find_users_list(m, users@, k as int, set@, restrict, disable, f1 as nat)
                == find_users_list(m, users@, 0, s2, restrict, disable, f1 as nat),
        decreases n - k,
    {
        find_users_rec(m, users[k], set, restrict, disable, f1);
        k += 1;
    }
}

/// Transitively collect into `set` all values that use `value`, following call
/// arguments into callees and the pointer operand of stores.
///
/// - `restrict_cross_fn`: only follow a callee parameter when the matching call
///   argument is already in `set`.
/// - `disable_cross_fn`: never follow into callees.
pub fn simple_find_users(
    m: &Module,
    value: usize,
    set: &mut Vec<bool>,
    restrict_cross_fn: bool,
    disable_cross_fn: bool,
)
    requires
        m.wf(),
        value < m.values@.len(),
        old(set)@.len() == m.values@.len(),
    ensures
        final(set)@ == find_users(
            m,
            value as int,
            old(set)@,
            restrict_cross_fn,
            disable_cross_fn,
            m.values@.len() as nat,
        ),
        final(set)@.len() == m.values@.len(),
{
    find_users_rec(m, value, set, restrict_cross_fn, disable_cross_fn, m.values.len());
}

/// A set with no value in it, sized for `m`.
pub fn empty_set(m: &Module) -> (r: Vec<bool>)
    ensures
        r@.len() == m.values@.len(),
        forall|k: int| 0 <= k < r@.len() ==> !(#[trigger] r@[k]),
{
    let n = m.values.len();
    let mut r: Vec<bool> = Vec::new();
    for k in 0..n
        invariant
            n == m.values@.len(),
            r@.len() == k,
            forall|j: int| 0 <= j < r@.len() ==> !(#[trigger] r@[j]),
    {
        r.push(false);
    }
    r
}

/// The transitive users of `value` (the search from an empty set).
pub fn users_of(m: &Module, value: usize, restrict_cross_fn: bool, disable_cross_fn: bool) -> (r: Vec<bool>)
    requires
        m.wf(),
        value < m.values@.len(),
    ensures
        r@ == users_spec(m, value as int, restrict_cross_fn, disable_cross_fn),
        r@.len() == m.values@.len(),
{
    let mut set = empty_set(m);
    assert(set@ == Seq::new(m.values@.len(), |k: int| false));
    simple_find_users(m, value, &mut set, restrict_cross_fn, disable_cross_fn);
    set
}

} // verus!

verus! {

/// The transitive users of `v`, searched from an empty set.
pub open spec fn users_spec(m: &Module, v: int, restrict: bool, disable: bool) -> Seq<bool> {
    find_users(m, v, Seq::new(m.values@.len(), |k: int| false), restrict, disable, m.values@.len() as nat)
}

} // verus!

verus! {

proof fn lemma_fu_grows(m: &Module, v: int, s: Seq<bool>, r: bool, d: bool, fuel: nat)
    requires
        s.len() == m.values@.len(),
    ensures
        grows(s, find_users(m, v, s, r, d, fuel)),
    decreases fuel, 0int,
{
    if !(!m.valid(v) || stops_search(m, v) || s[v] || fuel == 0) {
        let s1 = s.update(v, true);
        let f1 = (fuel - 1) as nat;
        lemma_step_grows(m, v, s1, r, d, f1);
        let s2 = find_users_step(m, v, s1, r, d, f1);
        lemma_list_grows(m, m.values[v].users@, 0, s2, r, d, f1);
        lemma_grows_trans(s, s1, s2);
        lemma_grows_trans(s, s2, find_users_list(m, m.values[v].users@, 0, s2, r, d, f1));
    }
}

proof fn lemma_step_grows(m: &Module, v: int, s1: Seq<bool>, r: bool, d: bool, f1: nat)
    requires
        s1.len() == m.values@.len(),
    ensures
        grows(s1, find_users_step(m, v, s1, r, d, f1)),
    decreases f1, m.args(v).len() + 1,
{
    let args = m.args(v);
    if m.is_call(v) {
        match m.called_function(v) {
            Some(f) => if !d {
                lemma_params_grows(m, v, f as int, 0, s1, r, d, f1);
                let sp = find_users_params(m, v, f as int, 0, s1, r, d, f1);
                if contains(m.function_name(f as int), into_marker()) && args.len() >= 2 && sp[args[1] as int] {
                    lemma_fu_grows(m, args[0] as int, sp, r, d, f1);
                    lemma_grows_trans(s1, sp, find_users(m, args[0] as int, sp, r, d, f1));
                }
            },
            None => {},
        }
    } else if m.has_opcode(v, Opcode::Store) && m.operands(v).len() > 1 {
        lemma_fu_grows(m, m.operands(v)[1] as int, s1, r, d, f1);
    }
}

proof fn lemma_params_grows(m: &Module, v: int, f: int, i: int, s: Seq<bool>, r: bool, d: bool, fuel: nat)
    requires
        s.len() == m.values@.len(),
    ensures
        grows(s, find_users_params(m, v, f, i, s, r, d, fuel)),
    decreases fuel, m.args(v).len() - i,
{
    if !(i < 0 || i >= m.args(v).len()) {
        let a = m.args(v)[i];
        let params = m.functions[f].params@;
        let s1 = if (!r || s[a as int]) && i < params.len() {
            lemma_fu_grows(m, params[i] as int, s, r, d, fuel);
            find_users(m, params[i] as int, s, r, d, fuel)
        } else {
            s
        };
        lemma_params_grows(m, v, f, i + 1, s1, r, d, fuel);
        lemma_grows_trans(s, s1, find_users_params(m, v, f, i + 1, s1, r, d, fuel));
    }
}

proof fn lemma_list_grows(m: &Module, us: Seq<usize>, i: int, s: Seq<bool>, r: bool, d: bool, fuel: nat)
    requires
        s.len() == m.values@.len(),
    ensures
        grows(s, find_users_list(m, us, i, s, r, d, fuel)),
    decreases fuel, us.len() - i,
{
    if !(i < 0 || i >= us.len()) {
        lemma_fu_grows(m, us[i] as int, s, r, d, fuel);
        let s1 = find_users(m, us[i] as int, s, r, d, fuel);
        lemma_list_grows(m, us, i + 1, s1, r, d, fuel);
        lemma_grows_trans(s, s1, find_users_list(m, us, i + 1, s1, r, d, fuel));
    }
}

proof fn lemma_grows_trans(a: Seq<bool>, b: Seq<bool>, c: Seq<bool>)
    requires
        grows(a, b),
        grows(b, c),
    ensures
        grows(a, c),
{
    assert forall|h: int| 0 <= h < a.len() && #[trigger] a[h] implies c[h] by {
        assert(b[h]);
    }
}

/// The search from `v` never runs out of fuel: with at least as much fuel as
/// there are unmarked values, any more fuel gives the same marks.
pub proof fn lemma_find_users_fuel(m: &Module, v: int, s: Seq<bool>, r: bool, d: bool, fuel: nat, fuel2: nat)
    requires
        s.len() == m.values@.len(),
        fuel >= unvisited(s),
        fuel2 >= fuel,
    ensures
        find_users(m, v, s, r, d, fuel) == find_users(m, v, s, r, d, fuel2),
    decreases fuel, 0int,
{
    if !m.valid(v) || stops_search(m, v) || s[v] {
        return;
    }
    if fuel == 0 {
        lemma_unvisited_zero(s, v);
        return;
    }
    let s1 = s.update(v, true);
    lemma_unvisited_update(s, v);
    let f1 = (fuel - 1) as nat;
    let g1 = (fuel2 - 1) as nat;
    lemma_step_fuel(m, v, s1, r, d, f1, g1);
    let s2 = find_users_step(m, v, s1, r, d, f1);
    lemma_step_grows(m, v, s1, r, d, f1);
    lemma_unvisited_mono(s1, s2);
    lemma_list_fuel(m, m.values[v].users@, 0, s2, r, d, f1, g1);
}

proof fn lemma_step_fuel(m: &Module, v: int, s1: Seq<bool>, r: bool, d: bool, f1: nat, g1: nat)
    requires
        s1.len() == m.values@.len(),
        f1 >= unvisited(s1),
        g1 >= f1,
    ensures
        find_users_step(m, v, s1, r, d, f1) == find_users_step(m, v, s1, r, d, g1),
    decreases f1, m.args(v).len() + 1,
{
    let args = m.args(v);
    if m.is_call(v) {
        match m.called_function(v) {
            Some(f) => if !d {
                lemma_params_fuel(m, v, f as int, 0, s1, r, d, f1, g1);
                let sp = find_users_params(m, v, f as int, 0, s1, r, d, f1);
                if contains(m.function_name(f as int), into_marker()) && args.len() >= 2 && sp[args[1] as int] {
                    lemma_params_grows(m, v, f as int, 0, s1, r, d, f1);
                    lemma_unvisited_mono(s1, sp);
                    lemma_find_users_fuel(m, args[0] as int, sp, r, d, f1, g1);
                }
            },
            None => {},
        }
    } else if m.has_opcode(v, Opcode::Store) && m.operands(v).len() > 1 {
        lemma_find_users_fuel(m, m.operands(v)[1] as int, s1, r, d, f1, g1);
    }
}

proof fn lemma_params_fuel(m: &Module, v: int, f: int, i: int, s: Seq<bool>, r: bool, d: bool, fuel: nat, fuel2: nat)
    requires
        s.len() == m.values@.len(),
        fuel >= unvisited(s),
        fuel2 >= fuel,
    ensures
        find_users_params(m, v, f, i, s, r, d, fuel) == find_users_params(m, v, f, i, s, r, d, fuel2),
    decreases fuel, m.args(v).len() - i,
{
    if !(i < 0 || i >= m.args(v).len()) {
        let a = m.args(v)[i];
        let params = m.functions[f].params@;
        if (!r || s[a as int]) && i < params.len() {
            lemma_find_users_fuel(m, params[i] as int, s, r, d, fuel, fuel2);
            lemma_fu_grows(m, params[i] as int, s, r, d, fuel);
            let s1 = find_users(m, params[i] as int, s, r, d, fuel);
            lemma_unvisited_mono(s, s1);
            lemma_params_fuel(m, v, f, i + 1, s1, r, d, fuel, fuel2);
        } else {
            lemma_params_fuel(m, v, f, i + 1, s, r, d, fuel, fuel2);
        }
    }
}

proof fn lemma_list_fuel(m: &Module, us: Seq<usize>, i: int, s: Seq<bool>, r: bool, d: bool, fuel: nat, fuel2: nat)
    requires
        s.len() == m.values@.len(),
        fuel >= unvisited(s),
        fuel2 >= fuel,
    ensures
        find_users_list(m, us, i, s, r, d, fuel) == find_users_list(m, us, i, s, r, d, fuel2),
    decreases fuel, us.len() - i,
{
    if !(i < 0 || i >= us.len()) {
        lemma_find_users_fuel(m, us[i] as int, s, r, d, fuel, fuel2);
        lemma_fu_grows(m, us[i] as int, s, r, d, fuel);
        let s1 = find_users(m, us[i] as int, s, r, d, fuel);
        lemma_unvisited_mono(s, s1);
        lemma_list_fuel(m, us, i + 1, s1, r, d, fuel, fuel2);
    }
}

/// The fuel that `simple_find_users` gives the search, one per value, is
/// enough: any more gives the same marks.
pub proof fn lemma_simple_find_users_fuel(m: &Module, v: int, s: Seq<bool>, r: bool, d: bool, fuel2: nat)
    requires
        s.len() == m.values@.len(),
        fuel2 >= m.values@.len(),
    ensures
        find_users(m, v, s, r, d, m.values@.len() as nat) == find_users(m, v, s, r, d, fuel2),
{
    lemma_unvisited_bound(s);
    lemma_find_users_fuel(m, v, s, r, d, m.values@.len() as nat, fuel2);
}

/// The search marks `v` when it reaches it: `v` is a value and has a type
/// other than a label.
pub open spec fn searchable(m: &Module, v: int) -> bool {
    m.valid(v) && !stops_search(m, v)
}

/// Every value marked in `t` but not in `s` has each of its users that the
/// search marks marked in `t` too.
pub open spec fn new_marks_closed(m: &Module, s: Seq<bool>, t: Seq<bool>) -> bool {
    forall|w: int, j: int|
        0 <= w < s.len() && t[w] && !s[w] && 0 <= j < m.values[w].users@.len()
            && searchable(m, #[trigger] m.values[w].users@[j] as int) ==> t[m.values[w].users@[j] as int]
}

proof fn lemma_closed_trans(m: &Module, a: Seq<bool>, b: Seq<bool>, c: Seq<bool>)
    requires
        a.len() == m.values@.len(),
        new_marks_closed(m, a, b),
        new_marks_closed(m, b, c),
        grows(a, b),
        grows(b, c),
    ensures
        new_marks_closed(m, a, c),
{
    assert forall|w: int, j: int|
        0 <= w < a.len() && c[w] && !a[w] && 0 <= j < m.values[w].users@.len()
            && searchable(m, #[trigger] m.values[w].users@[j] as int) implies c[m.values[w].users@[j] as int] by {
        let u = m.values[w].users@[j] as int;
        assert(0 <= u < a.len());
        assert(b.len() == a.len());
        if b[w] {
            assert(b[u]);
            assert(c[u]);
        } else {
            assert(0 <= w < b.len() && c[w] && !b[w]);
        }
    }
}

proof fn lemma_fu_closed(m: &Module, v: int, s: Seq<bool>, r: bool, d: bool, fuel: nat)
    requires
        s.len() == m.values@.len(),
        fuel >= unvisited(s),
    ensures
        new_marks_closed(m, s, find_users(m, v, s, r, d, fuel)),
        searchable(m, v) ==> find_users(m, v, s, r, d, fuel)[v],
    decreases fuel, 0int,
{
    if !m.valid(v) || stops_search(m, v) || s[v] {
        return;
    }
    if fuel == 0 {
        lemma_unvisited_zero(s, v);
        return;
    }
    let s1 = s.update(v, true);
    lemma_unvisited_update(s, v);
    let f1 = (fuel - 1) as nat;
    lemma_step_closed(m, v, s1, r, d, f1);
    lemma_step_grows(m, v, s1, r, d, f1);
    let s2 = find_users_step(m, v, s1, r, d, f1);
    lemma_unvisited_mono(s1, s2);
    let us = m.values[v].users@;
    lemma_list_closed(m, us, 0, s2, r, d, f1);
    lemma_list_grows(m, us, 0, s2, r, d, f1);
    let res = find_users_list(m, us, 0, s2, r, d, f1);
    lemma_closed_trans(m, s1, s2, res);
    assert(res[v]) by {
        assert(s1[v]);
        assert(s2[v]);
    }
    assert forall|w: int, j: int|
        0 <= w < s.len() && res[w] && !s[w] && 0 <= j < m.values[w].users@.len()
            && searchable(m, #[trigger] m.values[w].users@[j] as int) implies res[m.values[w].users@[j] as int] by {
        if w != v {
            assert(!s1[w]);
        } else {
            assert(searchable(m, us[j] as int));
        }
    }
}

proof fn lemma_step_closed(m: &Module, v: int, s1: Seq<bool>, r: bool, d: bool, f1: nat)
    requires
        s1.len() == m.values@.len(),
        f1 >= unvisited(s1),
    ensures
        new_marks_closed(m, s1, find_users_step(m, v, s1, r, d, f1)),
    decreases f1, m.args(v).len() + 1,
{
    let args = m.args(v);
    if m.is_call(v) {
        match m.called_function(v) {
            Some(f) => if !d {
                lemma_params_closed(m, v, f as int, 0, s1, r, d, f1);
                lemma_params_grows(m, v, f as int, 0, s1, r, d, f1);
                let sp = find_users_params(m, v, f as int, 0, s1, r, d, f1);
                if contains(m.function_name(f as int), into_marker()) && args.len() >= 2 && sp[args[1] as int] {
                    lemma_unvisited_mono(s1, sp);
                    lemma_fu_closed(m, args[0] as int, sp, r, d, f1);
                    lemma_fu_grows(m, args[0] as int, sp, r, d, f1);
                    lemma_closed_trans(m, s1, sp, find_users(m, args[0] as int, sp, r, d, f1));
                }
            },
            None => {},
        }
    } else if m.has_opcode(v, Opcode::Store) && m.operands(v).len() > 1 {
        lemma_fu_closed(m, m.operands(v)[1] as int, s1, r, d, f1);
    }
}

proof fn lemma_params_closed(m: &Module, v: int, f: int, i: int, s: Seq<bool>, r: bool, d: bool, fuel: nat)
    requires
        s.len() == m.values@.len(),
        fuel >= unvisited(s),
    ensures
        new_marks_closed(m, s, find_users_params(m, v, f, i, s, r, d, fuel)),
    decreases fuel, m.args(v).len() - i,
{
    if !(i < 0 || i >= m.args(v).len()) {
        let a = m.args(v)[i];
        let params = m.functions[f].params@;
        if (!r || s[a as int]) && i < params.len() {
            lemma_fu_closed(m, params[i] as int, s, r, d, fuel);
            lemma_fu_grows(m, params[i] as int, s, r, d, fuel);
            let s1 = find_users(m, params[i] as int, s, r, d, fuel);
            lemma_unvisited_mono(s, s1);
            lemma_params_closed(m, v, f, i + 1, s1, r, d, fuel);
            lemma_params_grows(m, v, f, i + 1, s1, r, d, fuel);
            lemma_closed_trans(m, s, s1, find_users_params(m, v, f, i + 1, s1, r, d, fuel));
        } else {
            lemma_params_closed(m, v, f, i + 1, s, r, d, fuel);
        }
    }
}

proof fn lemma_list_closed(m: &Module, us: Seq<usize>, i: int, s: Seq<bool>, r: bool, d: bool, fuel: nat)
    requires
        0 <= i,
        s.len() == m.values@.len(),
        fuel >= unvisited(s),
    ensures
        new_marks_closed(m, s, find_users_list(m, us, i, s, r, d, fuel)),
        forall|j: int| i <= j < us.len() && searchable(m, #[trigger] us[j] as int)
            ==> find_users_list(m, us, i, s, r, d, fuel)[us[j] as int],
    decreases fuel, us.len() - i,
{
    if i < us.len() {
        lemma_fu_closed(m, us[i] as int, s, r, d, fuel);
        lemma_fu_grows(m, us[i] as int, s, r, d, fuel);
        let s1 = find_users(m, us[i] as int, s, r, d, fuel);
        lemma_unvisited_mono(s, s1);
        lemma_list_closed(m, us, i + 1, s1, r, d, fuel);
        lemma_list_grows(m, us, i + 1, s1, r, d, fuel);
        let res = find_users_list(m, us, i + 1, s1, r, d, fuel);
        lemma_closed_trans(m, s, s1, res);
        assert forall|j: int| i <= j < us.len() && searchable(m, #[trigger] us[j] as int) implies res[us[j] as int] by {
            if j == i {
                assert(s1[us[j] as int]);
            }
        }
    }
}

/// The users that `simple_find_users` collects from an empty set are closed
/// under use: `v` is among them (unless the search stops at `v`), and every
/// user of a collected value is collected too (unless the search stops at it).
pub proof fn lemma_users_closed(m: &Module, v: int, r: bool, d: bool)
    ensures
        searchable(m, v) ==> users_spec(m, v, r, d)[v],
        forall|w: int, j: int|
            0 <= w < m.values@.len() && users_spec(m, v, r, d)[w] && 0 <= j < m.values[w].users@.len()
                && searchable(m, #[trigger] m.values[w].users@[j] as int) ==> users_spec(m, v, r, d)[m.values[w].users@[j] as int],
{
    let s0 = Seq::new(m.values@.len(), |k: int| false);
    lemma_unvisited_bound(s0);
    lemma_fu_closed(m, v, s0, r, d, m.values@.len() as nat);
    let res = users_spec(m, v, r, d);
    assert forall|w: int, j: int|
        0 <= w < m.values@.len() && res[w] && 0 <= j < m.values[w].users@.len()
            && searchable(m, #[trigger] m.values[w].users@[j] as int) implies res[m.values[w].users@[j] as int] by {
        assert(!s0[w]);
    }
}

/// `simple_find_users` from any set of marks `s`: it only adds marks, marks
/// `v` (unless the search stops at `v`), and every value it adds has each of
/// its users marked (unless the search stops at that user).
pub proof fn lemma_find_users_closed(m: &Module, v: int, s: Seq<bool>, r: bool, d: bool)
    requires
        s.len() == m.values@.len(),
    ensures
        ({
            let res = find_users(m, v, s, r, d, m.values@.len() as nat);
            &&& grows(s, res)
            &&& (searchable(m, v) ==> res[v])
            &&& new_marks_closed(m, s, res)
        }),
{
    lemma_unvisited_bound(s);
    lemma_fu_closed(m, v, s, r, d, m.values@.len() as nat);
    lemma_fu_grows(m, v, s, r, d, m.values@.len() as nat);
}

/// Running `simple_find_users` again from the same value, on the set it
/// produced, leaves the set unchanged.
pub proof fn lemma_find_users_idempotent(m: &Module, v: int, s: Seq<bool>, r: bool, d: bool)
    requires
        s.len() == m.values@.len(),
    ensures
        ({
            let n = m.values@.len() as nat;
            find_users(m, v, find_users(m, v, s, r, d, n), r, d, n) == find_users(m, v, s, r, d, n)
        }),
{
    let n = m.values@.len() as nat;
    if m.valid(v) && !stops_search(m, v) && !s[v] {
        lemma_unvisited_bound(s);
        lemma_fu_closed(m, v, s, r, d, n);
    }
}

} // verus!
