//! Reachability in the call graph, and what the call-graph searches answer
//! in its terms:
//! - the transitive call search `calls_from` (behind `func_calls_func_rec`
//!   and `is_inst_call_func_rec`) answers true exactly when a chain of calls
//!   leads to a call of a matching function;
//! - when `is_func_privileged` answers true, an owner check is there, at
//!   most five calls down.
use vstd::prelude::*;
use crate::ir::{Module, fn_insts, lemma_flatten_below};
use crate::callgraph::{account_eq_pattern, calls_from, calls_insts, calls_rec, inst_calls, llvm_prefix,
    predecessor_pattern, privileged, privileged_insts, privileged_rec, some_inst_calls, user_loc};
use crate::patterns::pattern_matches;
use crate::text::starts_with;

verus! {

/// Instruction `v` calls function `g`, through a name that is not an `llvm`
/// intrinsic's.
pub open spec fn call_edge_at(m: &Module, v: int, g: int) -> bool {
    &&& m.called_fn_name(v) matches Some(n)
    &&& !starts_with(n, llvm_prefix())
    &&& m.called_function(v) is Some
    &&& m.called_function(v).unwrap() as int == g
}

/// Some instruction of `f` calls `g` (an `llvm` intrinsic excepted).
pub open spec fn calls_edge(m: &Module, f: int, g: int) -> bool {
    exists|k: int| 0 <= k < fn_insts(m, f).len() && #[trigger] call_edge_at(m, fn_insts(m, f)[k] as int, g)
}

/// Some instruction of `f` calls a function whose name matches `p`.
pub open spec fn direct_match(m: &Module, f: int, p: Seq<char>) -> bool {
    exists|k: int| 0 <= k < fn_insts(m, f).len() && #[trigger] inst_calls(m, fn_insts(m, f)[k] as int, p)
}

/// `path` is a chain of calls whose last function calls one matching `p`.
pub open spec fn call_path(m: &Module, path: Seq<int>, p: Seq<char>) -> bool {
    &&& path.len() >= 1
    &&& forall|i: int| 0 <= i < path.len() - 1 ==> #[trigger] calls_edge(m, path[i], path[i + 1])
    &&& direct_match(m, path.last(), p)
}

/// From `f`, a chain of calls leads to a call of a function matching `p`.
pub open spec fn reaches(m: &Module, f: int, p: Seq<char>) -> bool {
    exists|path: Seq<int>| path.len() >= 1 && path[0] == f && #[trigger] call_path(m, path, p)
}

proof fn lemma_rec_sound(m: &Module, f: int, p: Seq<char>, vis: Seq<bool>, fuel: nat)
    ensures
        calls_rec(m, f, p, vis, fuel).0 ==> reaches(m, f, p),
    decreases fuel, 0int,
{
    if !(vis[f] || fuel == 0) {
        lemma_insts_sound(m, f, 0, p, vis.update(f, true), (fuel - 1) as nat);
    }
}

proof fn lemma_insts_sound(m: &Module, f: int, i: int, p: Seq<char>, vis: Seq<bool>, fuel: nat)
    ensures
        calls_insts(m, fn_insts(m, f), i, p, vis, fuel).0 ==> reaches(m, f, p),
    decreases fuel, fn_insts(m, f).len() - i,
{
    let is = fn_insts(m, f);
    if 0 <= i < is.len() {
        let v = is[i] as int;
        match m.called_fn_name(v) {
            Some(n) => {
                if pattern_matches(p, n) {
                    let path = seq![f];
                    assert(inst_calls(m, is[i] as int, p));
                    assert(call_path(m, path, p));
                } else if !starts_with(n, llvm_prefix()) {
                    let g = m.called_function(v).unwrap() as int;
                    lemma_rec_sound(m, g, p, vis, fuel);
                    let (b, vis2) = calls_rec(m, g, p, vis, fuel);
                    if b {
                        let pg = choose|path: Seq<int>| path.len() >= 1 && path[0] == g && #[trigger] call_path(m, path, p);
                        let path = seq![f] + pg;
                        assert(call_edge_at(m, is[i] as int, g));
                        assert(calls_edge(m, f, g));
                        assert forall|j: int| 0 <= j < path.len() - 1 implies #[trigger] calls_edge(m, path[j], path[j + 1]) by {
                            if j > 0 {
                                assert(path[j] == pg[j - 1]);
                                assert(path[j + 1] == pg[j]);
                                assert(calls_edge(m, pg[j - 1], pg[(j - 1) + 1]));
                            }
                        }
                        assert(path.last() == pg.last());
                        assert(call_path(m, path, p));
                    } else {
                        lemma_insts_sound(m, f, i + 1, p, vis2, fuel);
                    }
                } else {
                    lemma_insts_sound(m, f, i + 1, p, vis, fuel);
                }
            },
            None => {
                lemma_insts_sound(m, f, i + 1, p, vis, fuel);
            },
        }
    }
}

/// The number of functions not yet visited.
pub open spec fn unvisited(vis: Seq<bool>) -> nat
    decreases vis.len(),
{
    if vis.len() == 0 {
        0
    } else {
        unvisited(vis.drop_last()) + if vis.last() {
            0nat
        } else {
            1nat
        }
    }
}

/// `vis2` keeps every mark of `vis`.
pub open spec fn grows(vis: Seq<bool>, vis2: Seq<bool>) -> bool {
    vis2.len() == vis.len() && forall|h: int| 0 <= h < vis.len() && #[trigger] vis[h] ==> vis2[h]
}

/// `h` calls no function matching `p`, and every function it calls is marked in `v`.
pub open spec fn clean(m: &Module, h: int, p: Seq<char>, v: Seq<bool>) -> bool {
    &&& !direct_match(m, h, p)
    &&& forall|g: int| #[trigger] calls_edge(m, h, g) ==> 0 <= g < v.len() && v[g]
}

pub proof fn lemma_unvisited_update(vis: Seq<bool>, h: int)
    requires
        0 <= h < vis.len(),
        !vis[h],
    ensures
        unvisited(vis.update(h, true)) + 1 == unvisited(vis),
    decreases vis.len(),
{
    let u = vis.update(h, true);
    if h == vis.len() - 1 {
        assert(u.drop_last() =~= vis.drop_last());
    } else {
        lemma_unvisited_update(vis.drop_last(), h);
        assert(u.drop_last() =~= vis.drop_last().update(h, true));
    }
}

pub proof fn lemma_unvisited_zero(vis: Seq<bool>, h: int)
    requires
        0 <= h < vis.len(),
        unvisited(vis) == 0,
    ensures
        vis[h],
    decreases vis.len(),
{
    if h < vis.len() - 1 {
        lemma_unvisited_zero(vis.drop_last(), h);
    }
}

pub proof fn lemma_unvisited_mono(vis: Seq<bool>, vis2: Seq<bool>)
    requires
        grows(vis, vis2),
    ensures
        unvisited(vis2) <= unvisited(vis),
    decreases vis.len(),
{
    if vis.len() > 0 {
        assert(grows(vis.drop_last(), vis2.drop_last())) by {
            assert forall|h: int| 0 <= h < vis.drop_last().len() && #[trigger] vis.drop_last()[h] implies vis2.drop_last()[h] by {
                assert(vis[h]);
            }
        }
        lemma_unvisited_mono(vis.drop_last(), vis2.drop_last());
        if vis.last() {
            assert(vis[vis.len() - 1]);
        }
    }
}

/// There are no more unmarked entries than entries.
pub proof fn lemma_unvisited_bound(vis: Seq<bool>)
    ensures
        unvisited(vis) <= vis.len(),
    decreases vis.len(),
{
    if vis.len() > 0 {
        lemma_unvisited_bound(vis.drop_last());
    }
}

proof fn lemma_unvisited_none(n: nat)
    ensures
        unvisited(Seq::new(n, |k: int| false)) == n,
    decreases n,
{
    if n > 0 {
        lemma_unvisited_none((n - 1) as nat);
        assert(Seq::new(n, |k: int| false).drop_last() =~= Seq::new((n - 1) as nat, |k: int| false));
    }
}

/// A function that `v` calls is a function of the module.
proof fn lemma_called_valid(m: &Module, v: int)
    requires
        m.wf(),
        m.called_function(v) is Some,
    ensures
        m.called_function(v).unwrap() < m.functions@.len(),
{
    let c = m.inst(v).unwrap().callee.unwrap() as int;
    assert(m.value_wf(c));
}

proof fn lemma_clean_grows(m: &Module, h: int, p: Seq<char>, v: Seq<bool>, v2: Seq<bool>)
    requires
        clean(m, h, p, v),
        grows(v, v2),
    ensures
        clean(m, h, p, v2),
{
    assert forall|g: int| #[trigger] calls_edge(m, h, g) implies 0 <= g < v2.len() && v2[g] by {
        assert(v[g]);
    }
}

proof fn lemma_rec_complete(m: &Module, f: int, p: Seq<char>, vis: Seq<bool>, fuel: nat)
    requires
        m.wf(),
        0 <= f < m.functions@.len(),
        vis.len() == m.functions@.len(),
        fuel >= unvisited(vis),
    ensures
        ({
            let (b, v2) = calls_rec(m, f, p, vis, fuel);
            !b ==> {
                &&& grows(vis, v2)
                &&& v2[f]
                &&& forall|h: int| 0 <= h < vis.len() && #[trigger] v2[h] && !vis[h] ==> clean(m, h, p, v2)
            }
        }),
    decreases fuel, 0int,
{
    if vis[f] {
        return;
    }
    if fuel == 0 {
        if unvisited(vis) == 0 {
            lemma_unvisited_zero(vis, f);
        }
        return;
    }
    let vis1 = vis.update(f, true);
    lemma_unvisited_update(vis, f);
    lemma_insts_complete(m, f, 0, p, vis1, (fuel - 1) as nat);
    let (b, v2) = calls_rec(m, f, p, vis, fuel);
    assert((b, v2) == calls_insts(m, fn_insts(m, f), 0, p, vis1, (fuel - 1) as nat));
    if !b {
        let is = fn_insts(m, f);
        assert(vis1[f]);
        assert(grows(vis, v2)) by {
            assert forall|h: int| 0 <= h < vis.len() && #[trigger] vis[h] implies v2[h] by {
                assert(vis1[h]);
            }
        }
        assert(clean(m, f, p, v2)) by {
            assert forall|g: int| #[trigger] calls_edge(m, f, g) implies 0 <= g < v2.len() && v2[g] by {
                let k = choose|k: int| 0 <= k < is.len() && #[trigger] call_edge_at(m, is[k] as int, g);
                lemma_called_valid(m, is[k] as int);
            }
            if direct_match(m, f, p) {
                let k = choose|k: int| 0 <= k < is.len() && #[trigger] inst_calls(m, is[k] as int, p);
            }
        }
        assert forall|h: int| 0 <= h < vis.len() && #[trigger] v2[h] && !vis[h] implies clean(m, h, p, v2) by {
            if h != f {
                assert(!vis1[h]);
            }
        }
    }
}

proof fn lemma_insts_complete(m: &Module, f: int, i: int, p: Seq<char>, vis: Seq<bool>, fuel: nat)
    requires
        m.wf(),
        0 <= f < m.functions@.len(),
        0 <= i,
        vis.len() == m.functions@.len(),
        fuel >= unvisited(vis),
    ensures
        ({
            let is = fn_insts(m, f);
            let (b, v2) = calls_insts(m, is, i, p, vis, fuel);
            !b ==> {
                &&& grows(vis, v2)
                &&& forall|h: int| 0 <= h < vis.len() && #[trigger] v2[h] && !vis[h] ==> clean(m, h, p, v2)
                &&& forall|k: int| i <= k < is.len() ==> !#[trigger] inst_calls(m, is[k] as int, p)
                &&& forall|k: int, g: int| i <= k < is.len() && #[trigger] call_edge_at(m, is[k] as int, g) ==> 0 <= g < v2.len() && v2[g]
            }
        }),
    decreases fuel, fn_insts(m, f).len() - i,
{
    let is = fn_insts(m, f);
    if i >= is.len() {
        return;
    }
    let v = is[i] as int;
    match m.called_fn_name(v) {
        Some(n) => {
            if pattern_matches(p, n) {
                return;
            }
            if !starts_with(n, llvm_prefix()) {
                let g = m.called_function(v).unwrap() as int;
                lemma_called_valid(m, v);
                lemma_rec_complete(m, g, p, vis, fuel);
                let (b, vis2) = calls_rec(m, g, p, vis, fuel);
                if !b {
                    lemma_unvisited_mono(vis, vis2);
                    lemma_insts_complete(m, f, i + 1, p, vis2, fuel);
                    let (b3, v3) = calls_insts(m, is, i + 1, p, vis2, fuel);
                    assert(calls_insts(m, is, i, p, vis, fuel) == (b3, v3));
                    if !b3 {
                        assert(grows(vis, v3)) by {
                            assert forall|h: int| 0 <= h < vis.len() && #[trigger] vis[h] implies v3[h] by {
                                assert(vis2[h]);
                            }
                        }
                        assert forall|h: int| 0 <= h < vis.len() && #[trigger] v3[h] && !vis[h] implies clean(m, h, p, v3) by {
                            if vis2[h] {
                                lemma_clean_grows(m, h, p, vis2, v3);
                            }
                        }
                        assert forall|k: int, g2: int| i <= k < is.len() && #[trigger] call_edge_at(m, is[k] as int, g2) implies 0 <= g2 < v3.len() && v3[g2] by {
                            if k == i {
                                assert(g2 == g);
                                assert(vis2[g]);
                            }
                        }
                        assert forall|k: int| i <= k < is.len() implies !#[trigger] inst_calls(m, is[k] as int, p) by {
                            if k == i {
                                assert(m.called_fn_name(v) == Some(n));
                            }
                        }
                    }
                }
            } else {
                lemma_insts_complete(m, f, i + 1, p, vis, fuel);
                let (b3, v3) = calls_insts(m, is, i + 1, p, vis, fuel);
                assert(calls_insts(m, is, i, p, vis, fuel) == (b3, v3));
                if !b3 {
                    assert forall|k: int, g2: int| i <= k < is.len() && #[trigger] call_edge_at(m, is[k] as int, g2) implies 0 <= g2 < v3.len() && v3[g2] by {
                        if k == i {
                            assert(!call_edge_at(m, v, g2));
                        }
                    }
                    assert forall|k: int| i <= k < is.len() implies !#[trigger] inst_calls(m, is[k] as int, p) by {
                        if k == i {
                            assert(m.called_fn_name(v) == Some(n));
                        }
                    }
                }
            }
        },
        None => {
            lemma_insts_complete(m, f, i + 1, p, vis, fuel);
            let (b3, v3) = calls_insts(m, is, i + 1, p, vis, fuel);
            assert(calls_insts(m, is, i, p, vis, fuel) == (b3, v3));
            if !b3 {
                assert forall|k: int, g2: int| i <= k < is.len() && #[trigger] call_edge_at(m, is[k] as int, g2) implies 0 <= g2 < v3.len() && v3[g2] by {
                    if k == i {
                        assert(!call_edge_at(m, v, g2));
                    }
                }
                assert forall|k: int| i <= k < is.len() implies !#[trigger] inst_calls(m, is[k] as int, p) by {
                    if k == i {
                        assert(!inst_calls(m, v, p));
                    }
                }
            }
        },
    }
}

/// The transitive call search from `f` answers true exactly when a chain of
/// calls (none through an `llvm` intrinsic) leads from `f` to a call of a
/// function whose name matches `p`.
pub proof fn lemma_calls_from_reaches(m: &Module, f: int, p: Seq<char>)
    requires
        m.wf(),
        0 <= f < m.functions@.len(),
    ensures
        calls_from(m, f, p) <==> reaches(m, f, p),
{
    let n = m.functions@.len();
    let vis0 = Seq::new(n, |k: int| false);
    lemma_rec_sound(m, f, p, vis0, n);
    lemma_unvisited_none(n);
    lemma_rec_complete(m, f, p, vis0, n);
    if !calls_from(m, f, p) && reaches(m, f, p) {
        let v = calls_rec(m, f, p, vis0, n).1;
        let path = choose|path: Seq<int>| path.len() >= 1 && path[0] == f && #[trigger] call_path(m, path, p);
        assert forall|h: int| 0 <= h < v.len() && #[trigger] v[h] implies clean(m, h, p, v) by {
            assert(!vis0[h]);
        }
        assert forall|i: int| 0 <= i < path.len() implies 0 <= #[trigger] path[i] < n && v[path[i]] by {
            lemma_path_marked(m, p, path, v, i);
        }
        let last = path.last();
        assert(path[path.len() - 1] == last);
        assert(clean(m, last, p, v));
    }
}

proof fn lemma_path_marked(m: &Module, p: Seq<char>, path: Seq<int>, v: Seq<bool>, i: int)
    requires
        m.wf(),
        v.len() == m.functions@.len(),
        call_path(m, path, p),
        0 <= path[0] < v.len() && v[path[0]],
        forall|h: int| 0 <= h < v.len() && #[trigger] v[h] ==> clean(m, h, p, v),
        0 <= i < path.len(),
    ensures
        0 <= path[i] < v.len() && v[path[i]],
    decreases i,
{
    if i > 0 {
        lemma_path_marked(m, p, path, v, i - 1);
        assert(calls_edge(m, path[i - 1], path[(i - 1) + 1]));
        assert(clean(m, path[i - 1], p, v));
    }
}

/// Function `g` reads the predecessor account in user code and compares
/// account ids.
pub open spec fn owner_check_here(m: &Module, g: int) -> bool {
    let is = fn_insts(m, g);
    &&& exists|k: int| 0 <= k < is.len() && user_loc(m, is[k] as int) && #[trigger] inst_calls(m, is[k] as int, predecessor_pattern())
    &&& some_inst_calls(m, is, account_eq_pattern())
}

/// An instruction of `f` in user code calls `g`.
pub open spec fn user_call_edge(m: &Module, f: int, g: int) -> bool {
    let is = fn_insts(m, f);
    exists|k: int|
        0 <= k < is.len() && user_loc(m, is[k] as int) && m.is_call(is[k] as int) && #[trigger] m.called_function(
            is[k] as int,
        ) == Some(g as usize)
}

/// `f`, or a function it calls from user code, at most `d` calls down, checks
/// the owner.
pub open spec fn owner_checked_within(m: &Module, f: int, d: int) -> bool
    decreases d,
{
    d >= 0 && (owner_check_here(m, f) || (d >= 1 && exists|g: int|
        #[trigger] user_call_edge(m, f, g) && owner_checked_within(m, g, d - 1)))
}

proof fn lemma_priv_sound(m: &Module, f: int, depth: int, vis: Seq<bool>)
    ensures
        privileged_rec(m, f, depth, vis).0 ==> owner_checked_within(m, f, depth),
    decreases depth + 1, fn_insts(m, f).len() + 1,
{
    if !(depth < 0 || vis[f]) {
        lemma_priv_insts_sound(m, f, 0, depth, vis.update(f, true));
    }
}

proof fn lemma_priv_insts_sound(m: &Module, f: int, i: int, depth: int, vis: Seq<bool>)
    ensures
        privileged_insts(m, f, fn_insts(m, f), i, depth, vis).0 ==> owner_checked_within(m, f, depth),
    decreases depth + 1, fn_insts(m, f).len() - i,
{
    let is = fn_insts(m, f);
    if !(depth < 0 || i < 0 || i >= is.len()) {
        let v = is[i] as int;
        if !user_loc(m, v) {
            lemma_priv_insts_sound(m, f, i + 1, depth, vis);
        } else if inst_calls(m, v, predecessor_pattern()) {
            if some_inst_calls(m, is, account_eq_pattern()) {
                assert(inst_calls(m, is[i] as int, predecessor_pattern()));
                assert(owner_check_here(m, f));
            } else {
                lemma_priv_insts_sound(m, f, i + 1, depth, vis);
            }
        } else if m.is_call(v) && m.called_function(v) is Some {
            let g = m.called_function(v).unwrap() as int;
            lemma_priv_sound(m, g, depth - 1, vis);
            let (b, vis2) = privileged_rec(m, g, depth - 1, vis);
            if b {
                assert(m.called_function(is[i] as int) == Some(g as usize));
                assert(user_call_edge(m, f, g));
            } else {
                lemma_priv_insts_sound(m, f, i + 1, depth, vis2);
            }
        } else {
            lemma_priv_insts_sound(m, f, i + 1, depth, vis);
        }
    }
}

/// When `is_func_privileged` finds an owner check, there is one: `f`, or a
/// function it calls from user code at most five calls down, reads the
/// predecessor account in user code and compares account ids.
pub proof fn lemma_privileged_sound(m: &Module, f: int)
    requires
        privileged(m, f),
    ensures
        owner_checked_within(m, f, 5),
{
    lemma_priv_sound(m, f, 5, Seq::new(m.functions@.len(), |k: int| false));
}

} // verus!
