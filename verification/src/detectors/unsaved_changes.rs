//! unsaved_changes: a map entry that is fetched with `get`, unwrapped and
//! mutated by a store, but never written back with `insert`.
//!
//! Output lines: `funcname@file@line`, at the `get` call.
use vstd::prelude::*;
use crate::ir::{FunctionRef, InstructionRef, Module, Opcode, all_instructions, fn_insts};
use crate::output::{TmpWriter, loc_line};
use crate::patterns::{all_unwrap, is_lib_func, map_get, map_insert};
use crate::callgraph::{has_user_loc, inst_calls, is_inst_call_func, user_loc};
use crate::users::{users_of, users_spec};
use super::common::{concat_upto, lemma_concat_upto_step, module_lines, is_lib_name, first_index, lemma_first_index, lemma_first_index_none};

verus! {

pub open spec fn get_pattern() -> Seq<char> {
    r"near_sdk[0-9]+collections[0-9]+(lookup_map[0-9]+LookupMap|tree_map[0-9]+TreeMap|unordered_map[0-9]+UnorderedMap|legacy_tree_map[0-9]+LegacyTreeMap)\$.+[0-9]+get[0-9]+"@
}

pub open spec fn insert_pattern() -> Seq<char> {
    r"near_sdk[0-9]+collections[0-9]+(lookup_map[0-9]+LookupMap|tree_map[0-9]+TreeMap|unordered_map[0-9]+UnorderedMap|legacy_tree_map[0-9]+LegacyTreeMap)\$.+[0-9]+insert[0-9]+"@
}

pub open spec fn unwrap_pattern() -> Seq<char> {
    r"core[0-9]+option[0-9]+Option\$.+[0-9]+(unwrap|unwrap_or|unwrap_or_else|unwrap_or_default|unwrap_unchecked)[0-9]+"@
}

/// Where a `get` call leaves its result: the call itself when it takes
/// `(self, key)`, its first argument when it returns through a pointer.
pub open spec fn get_result(m: &Module, v: int) -> Option<usize> {
    if m.args(v).len() == 2 {
        Some(v as usize)
    } else if m.args(v).len() == 3 {
        Some(m.args(v)[0])
    } else {
        None
    }
}

/// Value `u` is in `set` and is a call to an `unwrap`.
pub open spec fn unwrap_in(m: &Module, set: Seq<bool>, u: int) -> bool {
    set[u] && m.is_call(u) && inst_calls(m, u, unwrap_pattern())
}

/// The value that the lowest-numbered `unwrap` among the users of `rv`
/// unwraps (its first argument).
pub open spec fn unwrapped_value(m: &Module, rv: int) -> Option<usize> {
    let s = users_spec(m, rv, false, true);
    match first_index(m.values@.len() as int, |u: int| unwrap_in(m, s, u)) {
        Some(u) => if m.args(u).len() >= 1 {
            Some(m.args(u)[0])
        } else {
            None
        },
        None => None,
    }
}

pub open spec fn store_in(m: &Module, set: Seq<bool>, u: int) -> bool {
    set[u] && m.has_opcode(u, Opcode::Store)
}

pub open spec fn insert_in(m: &Module, set: Seq<bool>, u: int) -> bool {
    set[u] && m.is_call(u) && inst_calls(m, u, insert_pattern())
}

/// The unwrapped value `x` is stored to and never passed to `insert`.
pub open spec fn mutated_unsaved(m: &Module, x: int) -> bool {
    let s = users_spec(m, x, true, false);
    (exists|u: int| 0 <= u < m.values@.len() && #[trigger] store_in(m, s, u))
        && !(exists|u: int| 0 <= u < m.values@.len() && #[trigger] insert_in(m, s, u))
}

/// Instruction `v` is a `get` in user code whose unwrapped result is mutated
/// and not saved.
pub open spec fn unsaved_at(m: &Module, v: int) -> bool {
    &&& user_loc(m, v)
    &&& m.is_call(v)
    &&& inst_calls(m, v, get_pattern())
    &&& get_result(m, v) matches Some(rv)
    &&& unwrapped_value(m, rv as int) matches Some(x)
    &&& mutated_unsaved(m, x as int)
}

/// The line recorded at instruction `v` of function `f`.
pub open spec fn unsaved_line(m: &Module, f: int, v: int) -> Option<Seq<char>> {
    if unsaved_at(m, v) {
        Some(loc_line(m.function_name(f), m.debug_loc(v).unwrap().filename@, m.debug_loc(v).unwrap().line as nat))
    } else {
        None
    }
}

/// The lines recorded for function `f`.
pub open spec fn unsaved_changes_fn(m: &Module, f: int) -> Seq<Seq<char>> {
    if is_lib_name(m, f) {
        Seq::empty()
    } else {
        fn_insts(m, f).filter_map(|v: usize| unsaved_line(m, f, v as int))
    }
}

/// The entry a `get` call fetched is judged where the call leaves it: on the
/// call itself for `get(self, key)`, on its first argument for
/// `get(ret, self, key)`, which returns through a pointer. A `get` in user code
/// is reported exactly when the value the first `unwrap` of that result
/// unwraps is stored to and never passed to `insert`; a call with any other
/// number of arguments, or that is not a `get` in user code, is not reported.
pub proof fn lemma_get_result_examined(m: &Module, v: int)
    ensures
        unsaved_at(m, v) ==> user_loc(m, v) && m.is_call(v) && inst_calls(m, v, get_pattern())
            && (m.args(v).len() == 2 || m.args(v).len() == 3),
        user_loc(m, v) && m.is_call(v) && inst_calls(m, v, get_pattern()) && m.args(v).len() == 2 ==> (unsaved_at(m, v)
            <==> match unwrapped_value(m, v) {
                Some(x) => mutated_unsaved(m, x as int),
                None => false,
            }),
        user_loc(m, v) && m.is_call(v) && inst_calls(m, v, get_pattern()) && m.args(v).len() == 3 ==> (unsaved_at(m, v)
            <==> match unwrapped_value(m, m.args(v)[0] as int) {
                Some(x) => mutated_unsaved(m, x as int),
                None => false,
            }),
{
}

/// Two `get` calls in user code, one in each form, whose results are
/// unwrapped to the same value are reported alike.
pub proof fn lemma_get_forms_alike(m: &Module, v2: int, v3: int)
    requires
        user_loc(m, v2) && m.is_call(v2) && inst_calls(m, v2, get_pattern()) && m.args(v2).len() == 2,
        user_loc(m, v3) && m.is_call(v3) && inst_calls(m, v3, get_pattern()) && m.args(v3).len() == 3,
        unwrapped_value(m, v2) == unwrapped_value(m, m.args(v3)[0] as int),
    ensures
        unsaved_at(m, v2) == unsaved_at(m, v3),
{
    lemma_get_result_examined(m, v2);
    lemma_get_result_examined(m, v3);
}

fn unwrapped_value_exec(m: &Module, rv: usize, unwrap_pat: &str) -> (r: Option<usize>)
    requires
        m.wf(),
        rv < m.values@.len(),
        unwrap_pat@ == unwrap_pattern(),
    ensures
        r == unwrapped_value(m, rv as int),
        r matches Some(x) ==> x < m.values@.len(),
{
    let set = users_of(m, rv, false, true);
    let ghost s = users_spec(m, rv as int, false, true);
    let ghost p = |u: int| unwrap_in(m, s, u);
    let n = set.len();
    for u in 0..n
        invariant
            m.wf(),
            unwrap_pat@ == unwrap_pattern(),
            n == m.values@.len(),
            set@ == s,
            s == users_spec(m, rv as int, false, true),
            set@.len() == n,
            p == (|u: int| unwrap_in(m, s, u)),
            forall|j: int| 0 <= j < u ==> !#[trigger] p(j),
    {
        let ui = InstructionRef(u);
        if set[u] && ui.is_call(m) && is_inst_call_func(m, &ui, unwrap_pat) {
            proof {
                lemma_first_index(n as int, p, u as int);
            }
            if ui.num_args(m) >= 1 {
                return Some(ui.get_arg(m, 0));
            }
            return None;
        }
    }
    proof {
        lemma_first_index_none(n as int, p);
    }
    None
}

fn mutated_unsaved_exec(m: &Module, x: usize, insert_pat: &str) -> (r: bool)
    requires
        m.wf(),
        x < m.values@.len(),
        insert_pat@ == insert_pattern(),
    ensures
        r == mutated_unsaved(m, x as int),
{
    let set = users_of(m, x, true, false);
    let ghost s = users_spec(m, x as int, true, false);
    let n = set.len();
    let mut has_store = false;
    let mut has_insert = false;
    for u in 0..n
        invariant
            m.wf(),
            insert_pat@ == insert_pattern(),
            n == m.values@.len(),
            set@ == s,
            s == users_spec(m, x as int, true, false),
            set@.len() == n,
            has_store <==> exists|j: int| 0 <= j < u && #[trigger] store_in(m, s, j),
            has_insert <==> exists|j: int| 0 <= j < u && #[trigger] insert_in(m, s, j),
    {
        let ui = InstructionRef(u);
        if set[u] && ui.is_store(m) {
            assert(store_in(m, s, u as int));
            has_store = true;
        }
        if set[u] && ui.is_call(m) && is_inst_call_func(m, &ui, insert_pat) {
            assert(insert_in(m, s, u as int));
            has_insert = true;
        }
    }
    has_store && !has_insert
}

fn unsaved_at_exec(m: &Module, inst: &InstructionRef, get_pat: &str, unwrap_pat: &str, insert_pat: &str) -> (r: bool)
    requires
        m.wf(),
        inst.0 < m.values@.len(),
        get_pat@ == get_pattern(),
        unwrap_pat@ == unwrap_pattern(),
        insert_pat@ == insert_pattern(),
    ensures
        r == unsaved_at(m, inst.0 as int),
{
    if !has_user_loc(m, inst) || !inst.is_call(m) || !is_inst_call_func(m, inst, get_pat) {
        return false;
    }
    let na = inst.num_args(m);
    let rv = if na == 2 {
        inst.0
    } else if na == 3 {
        inst.get_arg(m, 0)
    } else {
        return false;
    };
    let x = match unwrapped_value_exec(m, rv, unwrap_pat) {
        Some(x) => x,
        None => {
            return false;
        },
    };
    mutated_unsaved_exec(m, x, insert_pat)
}

#[verifier::rlimit(40)]
fn unsaved_changes_in(m: &Module, f: usize, w: &mut TmpWriter)
    requires
        m.wf(),
        f < m.functions@.len(),
    ensures
        final(w).lines_view() == old(w).lines_view() + unsaved_changes_fn(m, f as int),
        final(w).detector == old(w).detector,
{
    let func = FunctionRef(f);
    if is_lib_func(func.name(m)) {
        assert(old(w).lines_view() + Seq::<Seq<char>>::empty() =~= old(w).lines_view());
        return;
    }
    let get_pat = map_get();
    let unwrap_pat = all_unwrap();
    let insert_pat = map_insert();
    let insts = all_instructions(m, &func);
    let ghost is = fn_insts(m, f as int);
    let ghost g = |v: usize| unsaved_line(m, f as int, v as int);
    let n = insts.len();
    assert(old(w).lines_view() + is.take(0).filter_map(g) =~= old(w).lines_view());
    for k in 0..n
        invariant
            m.wf(),
            f < m.functions@.len(),
            func.0 == f,
            get_pat@ == get_pattern(),
            unwrap_pat@ == unwrap_pattern(),
            insert_pat@ == insert_pattern(),
            n == insts@.len(),
            n == is.len(),
            is == fn_insts(m, f as int),
            g == (|v: usize| unsaved_line(m, f as int, v as int)),
            forall|j: int| 0 <= j < n ==> (#[trigger] insts@[j]).0 == is[j],
            forall|j: int| 0 <= j < n ==> (#[trigger] insts@[j]).0 < m.values@.len(),
            w.lines_view() == old(w).lines_view() + is.take(k as int).filter_map(g),
            w.detector == old(w).detector,
    {
        proof {
            is.lemma_filter_map_take_succ(g, k as int);
        }
        let inst = &insts[k];
        assert(inst.0 == is[k as int]);
        if unsaved_at_exec(m, inst, get_pat, unwrap_pat, insert_pat) {
            let loc = inst.debug_loc(m).unwrap();
            w.write(func.name(m), loc.filename.as_str(), loc.line);
        }
        assert(w.lines_view() =~= old(w).lines_view() + is.take(k + 1).filter_map(g));
    }
    assert(is.take(n as int) =~= is);
}

/// Records every `get` of a map entry in user code whose unwrapped value is
/// mutated and never re-inserted.
pub fn unsaved_changes(m: &Module, w: &mut TmpWriter)
    requires
        m.wf(),
    ensures
        final(w).lines_view() == old(w).lines_view() + module_lines(m, |f: int| unsaved_changes_fn(m, f)),
        final(w).detector == old(w).detector,
{
    let ghost per = |f: int| unsaved_changes_fn(m, f);
    let n = m.functions.len();
    for k in 0..n
        invariant
            m.wf(),
            n == m.functions@.len(),
            per == (|f: int| unsaved_changes_fn(m, f)),
            w.lines_view() == old(w).lines_view() + concat_upto(k as int, per),
            w.detector == old(w).detector,
    {
        unsaved_changes_in(m, k, w);
        proof {
            lemma_concat_upto_step(old(w).lines_view(), k as int, per);
        }
    }
}

} // verus!
