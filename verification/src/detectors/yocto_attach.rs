//! yocto_attach: a privileged function (it checks its caller) that does not
//! require one attached yoctoNEAR (`assert_one_yocto`), callbacks excepted.
//!
//! Output lines: `funcname@file`, with the file of the function's first
//! instruction in user code.
use vstd::prelude::*;
use crate::ir::{FunctionRef, InstructionRef, Module, all_instructions, fn_insts};
use crate::output::{TmpWriter, func_file_line};
use crate::input::strings_view;
use crate::patterns::{assert_one_yocto, is_lib_func};
use crate::callgraph::{has_user_loc, inst_calls_rec, is_func_privileged, is_inst_call_func_rec, privileged, user_loc};
use super::common::{concat_upto, lemma_concat_upto_step, module_lines, is_lib_name, first_index, lemma_first_index, lemma_first_index_none, lemma_first_index_some};
use super::upgrade_owner_check::first_user_inst;
use super::callback::first_user_file;

verus! {

pub open spec fn yocto_pattern() -> Seq<char> {
    r"near_sdk[0-9]+utils[0-9]+assert_one_yocto"@
}

/// Some instruction of `is` in user code requires the attached yoctoNEAR,
/// directly or through the functions it calls.
pub open spec fn yocto_checked(m: &Module, is: Seq<usize>) -> bool {
    exists|k: int| 0 <= k < is.len() && user_loc(m, is[k] as int) && #[trigger] inst_calls_rec(m, is[k] as int, yocto_pattern())
}

/// The line recorded for function `f`, with `callbacks` the names of the
/// callbacks.
pub open spec fn yocto_attach_fn(m: &Module, f: int, callbacks: Seq<Seq<char>>) -> Seq<Seq<char>> {
    let is = fn_insts(m, f);
    if is_lib_name(m, f) || callbacks.contains(m.function_name(f)) || !privileged(m, f) || yocto_checked(m, is) {
        Seq::empty()
    } else {
        seq![func_file_line(m.function_name(f), first_user_file(m, is))]
    }
}

fn is_callback(callbacks: &Vec<String>, name: &str) -> (r: bool)
    ensures
        r == strings_view(callbacks@).contains(name@),
{
    let n = callbacks.len();
    for k in 0..n
        invariant
            n == callbacks@.len(),
            forall|j: int| 0 <= j < k ==> callbacks@[j]@ != name@,
    {
        if crate::text::str_eq(callbacks[k].as_str(), name) {
            assert(strings_view(callbacks@)[k as int] == name@);
            return true;
        }
    }
    assert forall|j: int| 0 <= j < strings_view(callbacks@).len() implies strings_view(callbacks@)[j] != name@ by {
        assert(callbacks@[j]@ != name@);
    }
    false
}

/// The first instruction in user code, and whether some instruction in user
/// code requires the attached yoctoNEAR.
fn scan(m: &Module, insts: &Vec<InstructionRef>, f: usize) -> (r: (Option<usize>, bool))
    requires
        m.wf(),
        f < m.functions@.len(),
        insts@.len() == fn_insts(m, f as int).len(),
        forall|j: int| 0 <= j < insts@.len() ==> (#[trigger] insts@[j]).0 == fn_insts(m, f as int)[j],
        forall|j: int| 0 <= j < insts@.len() ==> (#[trigger] insts@[j]).0 < m.values@.len(),
    ensures
        match r.0 {
            Some(j) => first_user_inst(m, fn_insts(m, f as int)) == Some(j as int) && j < insts@.len(),
            None => first_user_inst(m, fn_insts(m, f as int)) is None,
        },
        r.1 == yocto_checked(m, fn_insts(m, f as int)),
{
    let re = assert_one_yocto();
    let ghost is = fn_insts(m, f as int);
    let ghost p = |k: int| user_loc(m, is[k] as int);
    let n = insts.len();
    let mut first: Option<usize> = None;
    let mut found = false;
    for k in 0..n
        invariant
            m.wf(),
            re@ == yocto_pattern(),
            n == insts@.len(),
            n == is.len(),
            is == fn_insts(m, f as int),
            p == (|k: int| user_loc(m, is[k] as int)),
            forall|j: int| 0 <= j < n ==> (#[trigger] insts@[j]).0 == is[j],
            forall|j: int| 0 <= j < n ==> (#[trigger] insts@[j]).0 < m.values@.len(),
            found == exists|j: int| 0 <= j < k && user_loc(m, is[j] as int) && #[trigger] inst_calls_rec(m, is[j] as int, yocto_pattern()),
            match first {
                Some(j) => j < k && first_index(n as int, p) == Some(j as int),
                None => forall|j: int| 0 <= j < k ==> !#[trigger] p(j),
            },
    {
        let inst = &insts[k];
        assert(inst.0 == is[k as int]);
        if has_user_loc(m, inst) {
            if first.is_none() {
                proof {
                    lemma_first_index(n as int, p, k as int);
                }
                first = Some(k);
            }
            if !found && is_inst_call_func_rec(m, inst, re) {
                assert(user_loc(m, is[k as int] as int) && inst_calls_rec(m, is[k as int] as int, yocto_pattern()));
                found = true;
            }
        }
        assert(user_loc(m, is[k as int] as int) && inst_calls_rec(m, is[k as int] as int, yocto_pattern()) ==> found);
        assert(found ==> exists|j: int| 0 <= j < k + 1 && user_loc(m, is[j] as int) && #[trigger] inst_calls_rec(m, is[j] as int, yocto_pattern()));
    }
    if first.is_none() {
        proof {
            lemma_first_index_none(n as int, p);
        }
    }
    (first, found)
}

fn yocto_attach_in(m: &Module, f: usize, callbacks: &Vec<String>, w: &mut TmpWriter)
    requires
        m.wf(),
        f < m.functions@.len(),
    ensures
        final(w).lines_view() == old(w).lines_view() + yocto_attach_fn(m, f as int, strings_view(callbacks@)),
        final(w).detector == old(w).detector,
{
    let func = FunctionRef(f);
    assert(old(w).lines_view() + Seq::<Seq<char>>::empty() =~= old(w).lines_view());
    let name = func.name(m);
    if is_lib_func(name) || is_callback(callbacks, name) || !is_func_privileged(m, &func) {
        return;
    }
    let insts = all_instructions(m, &func);
    let (first, found) = scan(m, &insts, f);
    if found {
        return;
    }
    match first {
        Some(j) => {
            proof {
                lemma_first_index_some(fn_insts(m, f as int).len() as int, |k: int| user_loc(m, fn_insts(m, f as int)[k] as int));
            }
            let loc = insts[j].debug_loc(m).unwrap();
            w.write_func_file(name, loc.filename.as_str());
        },
        None => {
            proof {
                reveal_strlit("");
            }
            w.write_func_file(name, "");
        },
    }
}

/// Records every privileged function, other than the `callbacks`, that does
/// not require an attached yoctoNEAR.
pub fn yocto_attach(m: &Module, callbacks: &Vec<String>, w: &mut TmpWriter)
    requires
        m.wf(),
    ensures
        final(w).lines_view() == old(w).lines_view() + module_lines(
            m,
            |f: int| yocto_attach_fn(m, f, strings_view(callbacks@)),
        ),
        final(w).detector == old(w).detector,
{
    let ghost per = |f: int| yocto_attach_fn(m, f, strings_view(callbacks@));
    let n = m.functions.len();
    for k in 0..n
        invariant
            m.wf(),
            n == m.functions@.len(),
            per == (|f: int| yocto_attach_fn(m, f, strings_view(callbacks@))),
            w.lines_view() == old(w).lines_view() + concat_upto(k as int, per),
            w.detector == old(w).detector,
    {
        yocto_attach_in(m, k, callbacks, w);
        proof {
            lemma_concat_upto_step(old(w).lines_view(), k as int, per);
        }
    }
}

} // verus!
