//! nft_owner_check: do the NFT approve and revoke functions check that the
//! caller is the owner?
//!
//! Output lines: `funcname@True` or `funcname@False`.
use vstd::prelude::*;
use crate::ir::{FunctionRef, Module};
use crate::output::{TmpWriter, bool_line};
use crate::patterns::{is_lib_func, is_match, nft_approve_function, pattern_matches};
use crate::callgraph::{is_func_privileged, privileged};
use crate::text::{contains, str_contains};
use super::common::{concat_upto, lemma_concat_upto_step, module_lines, is_lib_name};
use super::upgrade_owner_check::closure_marker;

verus! {

pub open spec fn nft_approve_pattern() -> Seq<char> {
    r"[0-9]+(nft_approve|nft_revoke|nft_revoke_all)[0-9]+"@
}

/// The line recorded for function `f`.
pub open spec fn nft_owner_check_fn(m: &Module, f: int) -> Seq<Seq<char>> {
    if is_lib_name(m, f) || contains(m.function_name(f), closure_marker())
        || !pattern_matches(nft_approve_pattern(), m.function_name(f)) {
        Seq::empty()
    } else {
        seq![bool_line(m.function_name(f), privileged(m, f))]
    }
}

fn nft_owner_check_in(m: &Module, f: usize, w: &mut TmpWriter)
    requires
        m.wf(),
        f < m.functions@.len(),
    ensures
        final(w).lines_view() == old(w).lines_view() + nft_owner_check_fn(m, f as int),
        final(w).detector == old(w).detector,
{
    let func = FunctionRef(f);
    assert(old(w).lines_view() + Seq::<Seq<char>>::empty() =~= old(w).lines_view());
    proof {
        reveal_strlit("$closure$");
    }
    let name = func.name(m);
    if is_lib_func(name) || str_contains(name, "$closure$") || !is_match(nft_approve_function(), name) {
        return;
    }
    let ok = is_func_privileged(m, &func);
    w.write_bool(name, ok);
}

/// Records, for every NFT approve or revoke function, whether it checks the
/// caller.
pub fn nft_owner_check(m: &Module, w: &mut TmpWriter)
    requires
        m.wf(),
    ensures
        final(w).lines_view() == old(w).lines_view() + module_lines(m, |f: int| nft_owner_check_fn(m, f)),
        final(w).detector == old(w).detector,
{
    let ghost per = |f: int| nft_owner_check_fn(m, f);
    let n = m.functions.len();
    for k in 0..n
        invariant
            m.wf(),
            n == m.functions@.len(),
            per == (|f: int| nft_owner_check_fn(m, f)),
            w.lines_view() == old(w).lines_view() + concat_upto(k as int, per),
            w.detector == old(w).detector,
    {
        nft_owner_check_in(m, k, w);
        proof {
            lemma_concat_upto_step(old(w).lines_view(), k as int, per);
        }
    }
}

} // verus!
