//! Shared specifications of the detectors.
use vstd::prelude::*;
use crate::ir::{Module, ValueKind};
use crate::patterns::{pattern_matches, lib_func_pattern};
use crate::callgraph::{inst_calls, user_loc};

verus! {

/// The items `per(0) + per(1) + ... + per(n - 1)`.
pub open spec fn concat_upto<A>(n: int, per: spec_fn(int) -> Seq<A>) -> Seq<A>
    decreases n,
{
    if n <= 0 {
        Seq::empty()
    } else {
        concat_upto(n - 1, per) + per(n - 1)
    }
}

pub proof fn lemma_concat_upto_step<A>(before: Seq<A>, n: int, per: spec_fn(int) -> Seq<A>)
    requires
        n >= 0,
    ensures
        before + concat_upto(n + 1, per) == (before + concat_upto(n, per)) + per(n),
{
    assert(concat_upto(n + 1, per) == concat_upto(n, per) + per(n));
    assert(before + concat_upto(n + 1, per) =~= (before + concat_upto(n, per)) + per(n));
}

/// The lines of a detector over the whole module: `per(f)` for each function in order.
pub open spec fn module_lines<A>(m: &Module, per: spec_fn(int) -> Seq<A>) -> Seq<A> {
    concat_upto(m.nfunctions(), per)
}

/// The function's name is a library symbol.
pub open spec fn is_lib_name(m: &Module, f: int) -> bool {
    pattern_matches(lib_func_pattern(), m.function_name(f))
}

/// The value is the integer constant 0.
pub open spec fn is_zero_const(m: &Module, v: int) -> bool {
    m.valid(v) && m.values[v].kind == ValueKind::ConstantInt(0)
}

/// Some call among `is` calls a function matching `p`.
pub open spec fn some_call_to(m: &Module, is: Seq<usize>, p: Seq<char>) -> bool {
    exists|k: int| 0 <= k < is.len() && m.is_call(is[k] as int) && #[trigger] inst_calls(m, is[k] as int, p)
}

/// Some instruction of `is` in user code calls a function matching `p`.
pub open spec fn user_call_to(m: &Module, is: Seq<usize>, p: Seq<char>) -> bool {
    exists|k: int| 0 <= k < is.len() && user_loc(m, is[k] as int) && #[trigger] inst_calls(m, is[k] as int, p)
}

/// The least index below `n` where `p` holds, if any.
pub open spec fn first_index(n: int, p: spec_fn(int) -> bool) -> Option<int> {
    if exists|k: int| 0 <= k < n && #[trigger] p(k) {
        Some(choose|k: int| #![trigger p(k)] 0 <= k < n && p(k) && forall|j: int| 0 <= j < k ==> !#[trigger] p(j))
    } else {
        None
    }
}

pub proof fn lemma_first_index(n: int, p: spec_fn(int) -> bool, k: int)
    requires
        0 <= k < n,
        p(k),
        forall|j: int| 0 <= j < k ==> !#[trigger] p(j),
    ensures
        first_index(n, p) == Some(k),
{
    let w = choose|k: int| #![trigger p(k)] 0 <= k < n && p(k) && forall|j: int| 0 <= j < k ==> !#[trigger] p(j);
    assert(0 <= k < n && p(k) && forall|j: int| 0 <= j < k ==> !#[trigger] p(j));
    assert(w == k) by {
        if w < k {
            assert(!p(w));
        } else if w > k {
            assert(!p(k));
        }
    }
}

proof fn lemma_least_witness(n: int, p: spec_fn(int) -> bool, k: int)
    requires
        0 <= k < n,
        p(k),
    ensures
        exists|w: int| #![trigger p(w)] 0 <= w < n && p(w) && forall|j: int| 0 <= j < w ==> !#[trigger] p(j),
    decreases k,
{
    if exists|j: int| 0 <= j < k && #[trigger] p(j) {
        let j = choose|j: int| 0 <= j < k && #[trigger] p(j);
        lemma_least_witness(n, p, j);
    } else {
        assert(0 <= k < n && p(k) && forall|j: int| 0 <= j < k ==> !#[trigger] p(j));
    }
}

pub proof fn lemma_first_index_some(n: int, p: spec_fn(int) -> bool)
    requires
        first_index(n, p) is Some,
    ensures
        0 <= first_index(n, p).unwrap() < n,
        p(first_index(n, p).unwrap()),
        forall|j: int| 0 <= j < first_index(n, p).unwrap() ==> !#[trigger] p(j),
{
    let k = choose|k: int| 0 <= k < n && #[trigger] p(k);
    lemma_least_witness(n, p, k);
}

pub proof fn lemma_first_index_none(n: int, p: spec_fn(int) -> bool)
    requires
        forall|j: int| 0 <= j < n ==> !#[trigger] p(j),
    ensures
        first_index(n, p) is None,
{
}

} // verus!
