//! nft_approval_check: does an NFT transfer implementation compare the
//! `approval_id` argument before executing the transfer?
//!
//! Output lines: `funcname@True` (checked) or `funcname@False`.
use vstd::prelude::*;
use crate::ir::{FunctionRef, InstructionRef, Module, Opcode, all_instructions, fn_insts};
use crate::output::{TmpWriter, bool_line};
use crate::patterns::{is_lib_func, is_match, pattern_matches, nft_standard_transfer, nft_transfer_bare, nft_transfer_call_bare, partial_eq};
use crate::callgraph::{inst_calls, is_inst_call_func, no_functions};
use crate::users::{users_of, users_spec};
use crate::text::str_eq;
use super::common::{concat_upto, lemma_concat_upto_step, module_lines, is_lib_name, first_index, lemma_first_index, lemma_first_index_none};

verus! {

pub open spec fn option_pair_type() -> Seq<char> {
    "{ i64, i64 }"@
}

pub open spec fn nft_standard_pattern() -> Seq<char> {
    r"near_contract_standards.+non_fungible_token.+core_impl.+NonFungibleToken.+[0-9](nft_transfer(_call)?|internal_transfer)[0-9]"@
}

pub open spec fn partial_eq_pattern() -> Seq<char> {
    r"core\.\.cmp\.\.PartialEq"@
}

/// When `u` stores into a field of an `Option<u64>` pair (a `getelementptr`
/// whose source element type is `{ i64, i64 }`), the pointer the field belongs to.
pub open spec fn approval_store_target(m: &Module, u: int) -> Option<usize> {
    if m.has_opcode(u, Opcode::Store) && m.operands(u).len() > 1 {
        let ptr = m.operands(u)[1] as int;
        if m.has_opcode(ptr, Opcode::GetElementPtr) && m.inst(ptr).unwrap().gep_source_type@
            == option_pair_type() && m.operands(ptr).len() > 0 {
            Some(m.operands(ptr)[0])
        } else {
            None
        }
    } else {
        None
    }
}

/// The `approval_id` value: the pointer of the first (lowest-numbered) user in
/// `users0` that stores into an `Option<u64>` pair.
pub open spec fn approval_id_of(m: &Module, users0: Seq<bool>) -> Option<usize> {
    match first_index(m.nvalues(), |u: int| users0[u] && approval_store_target(m, u) is Some) {
        Some(u) => approval_store_target(m, u),
        None => None,
    }
}

/// Some argument of call `v` is in `a` or in `b`.
pub open spec fn some_arg_in(m: &Module, v: int, a: Seq<bool>, b: Seq<bool>) -> bool {
    exists|j: int| 0 <= j < m.args(v).len() && (a[#[trigger] m.args(v)[j] as int] || b[m.args(v)[j] as int])
}

/// The search from `f`, whose parameter `off` holds `approval_id.0`, for an
/// equality check on the approval id: whether it finds one, and the visited
/// marks afterwards.
pub open spec fn approval_rec(m: &Module, f: int, off: int, depth: int, vis: Seq<bool>) -> (bool, Seq<bool>)
    decreases depth + 1, fn_insts(m, f).len() + 1,
{
    if depth < 0 || vis[f] {
        (false, vis)
    } else {
        let vis1 = vis.update(f, true);
        let params = m.functions[f].params@;
        if pattern_matches(nft_standard_pattern(), m.function_name(f)) {
            (true, vis1)
        } else if params.len() <= off {
            (false, vis1)
        } else {
            let u0 = users_spec(m, params[off] as int, false, true);
            let ua = match approval_id_of(m, u0) {
                Some(a) => users_spec(m, a as int, false, true),
                None => Seq::new(m.values@.len(), |k: int| false),
            };
            approval_insts(m, fn_insts(m, f), 0, u0, ua, depth, vis1)
        }
    }
}

pub open spec fn approval_insts(
    m: &Module,
    is: Seq<usize>,
    i: int,
    u0: Seq<bool>,
    ua: Seq<bool>,
    depth: int,
    vis: Seq<bool>,
) -> (bool, Seq<bool>)
    decreases depth + 1, is.len() - i,
{
    if depth < 0 || i < 0 || i >= is.len() {
        (false, vis)
    } else {
        let v = is[i] as int;
        if inst_calls(m, v, partial_eq_pattern()) {
            if some_arg_in(m, v, ua, u0) {
                (true, vis)
            } else {
                approval_insts(m, is, i + 1, u0, ua, depth, vis)
            }
        } else if m.is_call(v) {
            match first_index(m.args(v).len() as int, |j: int| u0[m.args(v)[j] as int]) {
                Some(off) => match m.called_function(v) {
                    Some(g) => {
                        let (b, vis2) = approval_rec(m, g as int, off, depth - 1, vis);
                        if b {
                            (true, vis2)
                        } else {
                            approval_insts(m, is, i + 1, u0, ua, depth, vis2)
                        }
                    },
                    None => approval_insts(m, is, i + 1, u0, ua, depth, vis),
                },
                None => approval_insts(m, is, i + 1, u0, ua, depth, vis),
            }
        } else {
            approval_insts(m, is, i + 1, u0, ua, depth, vis)
        }
    }
}

fn store_target(m: &Module, u: usize) -> (r: Option<usize>)
    requires
        m.wf(),
        u < m.values@.len(),
    ensures
        r == approval_store_target(m, u as int),
        r matches Some(a) ==> a < m.values@.len(),
{
    assert(m.value_wf(u as int));
    let i = match m.inst_data(u) {
        Some(i) => i,
        None => {
            return None;
        },
    };
    match i.opcode {
        Opcode::Store => {},
        _ => {
            return None;
        },
    }
    if i.operands.len() <= 1 {
        return None;
    }
    let ptr = i.operands[1];
    assert(m.value_wf(ptr as int));
    let p = match m.inst_data(ptr) {
        Some(p) => p,
        None => {
            return None;
        },
    };
    match p.opcode {
        Opcode::GetElementPtr => {},
        _ => {
            return None;
        },
    }
    proof {
        reveal_strlit("{ i64, i64 }");
    }
    if str_eq(p.gep_source_type.as_str(), "{ i64, i64 }") && p.operands.len() > 0 {
        Some(p.operands[0])
    } else {
        None
    }
}

fn find_approval_id(m: &Module, users0: &Vec<bool>) -> (r: Option<usize>)
    requires
        m.wf(),
        users0@.len() == m.values@.len(),
    ensures
        r == approval_id_of(m, users0@),
        r matches Some(a) ==> a < m.values@.len(),
{
    let ghost p = |u: int| users0@[u] && approval_store_target(m, u) is Some;
    let n = m.values.len();
    for u in 0..n
        invariant
            m.wf(),
            n == m.values@.len(),
            users0@.len() == n,
            p == (|u: int| users0@[u] && approval_store_target(m, u) is Some),
            forall|j: int| 0 <= j < u ==> !#[trigger] p(j),
    {
        if users0[u] {
            let t = store_target(m, u);
            if t.is_some() {
                proof {
                    lemma_first_index(n as int, p, u as int);
                }
                return t;
            }
        }
    }
    proof {
        lemma_first_index_none(n as int, p);
    }
    None
}

/// Some argument of `inst` is in `a` or in `b`.
pub fn some_arg_in_exec(m: &Module, inst: &InstructionRef, a: &Vec<bool>, b: &Vec<bool>) -> (r: bool)
    requires
        m.wf(),
        inst.0 < m.values@.len(),
        a@.len() == m.values@.len(),
        b@.len() == m.values@.len(),
    ensures
        r == some_arg_in(m, inst.0 as int, a@, b@),
{
    let v = inst.0;
    let nargs = inst.num_args(m);
    let mut j: usize = 0;
    while j < nargs
        invariant
            m.wf(),
            v == inst.0,
            v < m.values@.len(),
            nargs == m.args(v as int).len(),
            a@.len() == m.values@.len(),
            b@.len() == m.values@.len(),
            j <= nargs,
            forall|t: int| 0 <= t < j ==> !(a@[#[trigger] m.args(v as int)[t] as int] || b@[m.args(v as int)[t] as int]),
        decreases nargs - j,
    {
        let x = inst.get_arg(m, j);
        if a[x] || b[x] {
            return true;
        }
        j += 1;
    }
    false
}

/// The index of the first argument of `inst` that is in `a`.
pub fn first_arg_in(m: &Module, inst: &InstructionRef, a: &Vec<bool>) -> (r: Option<usize>)
    requires
        m.wf(),
        inst.0 < m.values@.len(),
        a@.len() == m.values@.len(),
    ensures
        r matches Some(j) ==> first_index(m.args(inst.0 as int).len() as int, |t: int| a@[m.args(inst.0 as int)[t] as int]) == Some(j as int),
        r is None ==> first_index(m.args(inst.0 as int).len() as int, |t: int| a@[m.args(inst.0 as int)[t] as int]) is None,
{
    let v = inst.0;
    let ghost p = |t: int| a@[m.args(v as int)[t] as int];
    let nargs = inst.num_args(m);
    let mut j: usize = 0;
    while j < nargs
        invariant
            m.wf(),
            v == inst.0,
            v < m.values@.len(),
            nargs == m.args(v as int).len(),
            a@.len() == m.values@.len(),
            p == (|t: int| a@[m.args(v as int)[t] as int]),
            j <= nargs,
            forall|t: int| 0 <= t < j ==> !#[trigger] p(t),
        decreases nargs - j,
    {
        let x = inst.get_arg(m, j);
        if a[x] {
            proof {
                lemma_first_index(nargs as int, p, j as int);
            }
            return Some(j);
        }
        j += 1;
    }
    proof {
        lemma_first_index_none(nargs as int, p);
    }
    None
}

/// True if `func` (given `approval_id0_offset`, the index of the parameter
/// holding `approval_id.0`) performs an approval-id equality check, itself or
/// in a function it passes the approval id to (within `depth` levels).
pub fn has_approval_check(
    m: &Module,
    func: &FunctionRef,
    approval_id0_offset: usize,
    depth: i32,
    visited: &mut Vec<bool>,
) -> (r: bool)
    requires
        m.wf(),
        func.0 < m.functions@.len(),
        old(visited)@.len() == m.functions@.len(),
    ensures
        (r, final(visited)@) == approval_rec(m, func.0 as int, approval_id0_offset as int, depth as int, old(visited)@),
        final(visited)@.len() == m.functions@.len(),
    decreases depth + 1,
{
    let f = func.0;
    if depth < 0 || visited[f] {
        return false;
    }
    visited.set(f, true);
    let ghost vis1 = visited@;
    if is_match(nft_standard_transfer(), func.name(m)) {
        return true;
    }
    if func.param_count(m) <= approval_id0_offset {
        return false;
    }
    let approval_id0 = func.get_param(m, approval_id0_offset);
    let users0 = users_of(m, approval_id0, false, true);
    let users_aid = match find_approval_id(m, &users0) {
        Some(aid) => users_of(m, aid, false, true),
        None => {
            let v = crate::users::empty_set(m);
            assert(v@ == Seq::new(m.values@.len(), |k: int| false));
            v
        },
    };
    let eq = partial_eq();
    let insts = all_instructions(m, func);
    let ghost is = fn_insts(m, f as int);
    let n = insts.len();
    let mut k: usize = 0;
    while k < n
        invariant
            m.wf(),
            depth >= 0,
            f == func.0,
            f < m.functions@.len(),
            eq@ == partial_eq_pattern(),
            users0@.len() == m.values@.len(),
            users_aid@.len() == m.values@.len(),
            n == insts@.len(),
            n == is.len(),
            forall|j: int| 0 <= j < n ==> (#[trigger] insts@[j]).0 == is[j],
            forall|j: int| 0 <= j < n ==> (#[trigger] insts@[j]).0 < m.values@.len(),
            k <= n,
            visited@.len() == m.functions@.len(),
            approval_insts(m, is, k as int, users0@, users_aid@, depth as int, visited@)
                == approval_insts(m, is, 0, users0@, users_aid@, depth as int, vis1),
            approval_rec(m, f as int, approval_id0_offset as int, depth as int, old(visited)@)
                == approval_insts(m, is, 0, users0@, users_aid@, depth as int, vis1),
        decreases n - k,
    {
        let inst = &insts[k];
        let v = inst.0;
        assert(v == is[k as int]);
        assert(m.value_wf(v as int));
        let ghost vis_k = visited@;
        if is_inst_call_func(m, inst, eq) {
            if some_arg_in_exec(m, inst, &users_aid, &users0) {
                return true;
            }
        } else if inst.is_call(m) {
            let next = first_arg_in(m, inst, &users0);
            match next {
                Some(off) => {
                    match m.direct_callee(v) {
                        Some(g) => {
                            if has_approval_check(m, &FunctionRef(g), off, depth - 1, visited) {
                                assert(approval_insts(m, is, k as int, users0@, users_aid@, depth as int, vis_k)
                                    == (true, visited@));
                                return true;
                            }
                        },
                        None => {},
                    }
                },
                None => {},
            }
        }
        k += 1;
    }
    false
}

pub open spec fn nft_transfer_pattern() -> Seq<char> {
    r"[0-9]nft_transfer[0-9]"@
}

pub open spec fn nft_transfer_call_pattern() -> Seq<char> {
    r"[0-9]nft_transfer_call[0-9]"@
}

/// The line recorded for function `f`.
pub open spec fn nft_approval_check_fn(m: &Module, f: int) -> Seq<Seq<char>> {
    let none = Seq::new(m.functions@.len(), |k: int| false);
    let nparams = m.functions[f].params@.len();
    if is_lib_name(m, f) {
        Seq::empty()
    } else if pattern_matches(nft_transfer_pattern(), m.function_name(f)) {
        if nparams < 6 {
            Seq::empty()
        } else {
            seq![bool_line(m.function_name(f), approval_rec(m, f, 4, 5, none).0)]
        }
    } else if pattern_matches(nft_transfer_call_pattern(), m.function_name(f)) {
        if nparams < 7 {
            Seq::empty()
        } else {
            seq![bool_line(m.function_name(f), approval_rec(m, f, 5, 5, none).0)]
        }
    } else {
        Seq::empty()
    }
}

fn nft_approval_check_in(m: &Module, f: usize, w: &mut TmpWriter)
    requires
        m.wf(),
        f < m.functions@.len(),
    ensures
        final(w).lines_view() == old(w).lines_view() + nft_approval_check_fn(m, f as int),
        final(w).detector == old(w).detector,
{
    let func = FunctionRef(f);
    let name = func.name(m);
    assert(old(w).lines_view() + Seq::<Seq<char>>::empty() == old(w).lines_view());
    if is_lib_func(name) {
        return;
    }
    if is_match(nft_transfer_bare(), name) {
        if func.param_count(m) < 6 {
            return;
        }
        // AccountId is (ptr, len): self=0, receiver_id=1..2, token_id=3,
        // approval_id.0=4, approval_id.1=5, memo=6
        let mut visited = no_functions(m);
        let ok = has_approval_check(m, &func, 4, 5, &mut visited);
        w.write_bool(name, ok);
    } else if is_match(nft_transfer_call_bare(), name) {
        if func.param_count(m) < 7 {
            return;
        }
        // sret=0, self=1, receiver_id=2..3, token_id=4, approval_id.0=5, ...
        let mut visited = no_functions(m);
        let ok = has_approval_check(m, &func, 5, 5, &mut visited);
        w.write_bool(name, ok);
    }
}

/// Records, for every `nft_transfer` / `nft_transfer_call` implementation,
/// whether it checks the approval id.
pub fn nft_approval_check(m: &Module, w: &mut TmpWriter)
    requires
        m.wf(),
    ensures
        final(w).lines_view() == old(w).lines_view() + module_lines(m, |f: int| nft_approval_check_fn(m, f)),
        final(w).detector == old(w).detector,
{
    let ghost per = |f: int| nft_approval_check_fn(m, f);
    let n = m.functions.len();
    for k in 0..n
        invariant
            m.wf(),
            n == m.functions@.len(),
            per == (|f: int| nft_approval_check_fn(m, f)),
            w.lines_view() == old(w).lines_view() + concat_upto(k as int, per),
            w.detector == old(w).detector,
    {
        nft_approval_check_in(m, k, w);
        proof {
            lemma_concat_upto_step(old(w).lines_view(), k as int, per);
        }
    }
}

} // verus!
