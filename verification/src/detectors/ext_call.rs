//! ext_call: every call in user code to one of the functions that make
//! external calls, as listed by `ext_call_trait`.
//!
//! Output lines: `funcname@file@line`, once for each listed pattern that the
//! callee matches.
use vstd::prelude::*;
use crate::ir::{FunctionRef, Module, all_instructions, fn_insts};
use crate::output::{TmpWriter, loc_line};
use crate::input::strings_view;
use crate::patterns::{is_lib_func, is_match, pattern_matches};
use crate::callgraph::{has_user_loc, user_loc};
use super::common::{concat_upto, lemma_concat_upto_step, module_lines, is_lib_name};

verus! {

/// The lines recorded at instruction `v` of function `f`: one for each
/// pattern of `pats` that the callee's name matches.
pub open spec fn ext_lines_at(m: &Module, f: int, v: int, pats: Seq<Seq<char>>) -> Seq<Seq<char>> {
    if user_loc(m, v) && m.called_fn_name(v) is Some {
        pats.filter_map(|p: Seq<char>| if pattern_matches(p, m.called_fn_name(v).unwrap()) {
            Some(loc_line(m.function_name(f), m.debug_loc(v).unwrap().filename@, m.debug_loc(v).unwrap().line as nat))
        } else {
            None
        })
    } else {
        Seq::empty()
    }
}

/// The lines recorded for function `f`.
pub open spec fn ext_call_fn(m: &Module, f: int, pats: Seq<Seq<char>>) -> Seq<Seq<char>> {
    if is_lib_name(m, f) {
        Seq::empty()
    } else {
        concat_upto(fn_insts(m, f).len() as int, |k: int| ext_lines_at(m, f, fn_insts(m, f)[k] as int, pats))
    }
}

fn ext_call_in(m: &Module, f: usize, patterns: &Vec<String>, w: &mut TmpWriter)
    requires
        m.wf(),
        f < m.functions@.len(),
    ensures
        final(w).lines_view() == old(w).lines_view() + ext_call_fn(m, f as int, strings_view(patterns@)),
        final(w).detector == old(w).detector,
{
    let func = FunctionRef(f);
    let ghost pats = strings_view(patterns@);
    if is_lib_func(func.name(m)) {
        assert(old(w).lines_view() + Seq::<Seq<char>>::empty() =~= old(w).lines_view());
        return;
    }
    let insts = all_instructions(m, &func);
    let ghost is = fn_insts(m, f as int);
    let ghost per = |k: int| ext_lines_at(m, f as int, fn_insts(m, f as int)[k] as int, pats);
    let n = insts.len();
    let np = patterns.len();
    assert(old(w).lines_view() + concat_upto(0, per) =~= old(w).lines_view());
    for k in 0..n
        invariant
            m.wf(),
            f < m.functions@.len(),
            func.0 == f,
            n == insts@.len(),
            n == is.len(),
            np == patterns@.len(),
            is == fn_insts(m, f as int),
            pats == strings_view(patterns@),
            per == (|k: int| ext_lines_at(m, f as int, fn_insts(m, f as int)[k] as int, pats)),
            forall|j: int| 0 <= j < n ==> (#[trigger] insts@[j]).0 == is[j],
            forall|j: int| 0 <= j < n ==> (#[trigger] insts@[j]).0 < m.values@.len(),
            w.lines_view() == old(w).lines_view() + concat_upto(k as int, per),
            w.detector == old(w).detector,
    {
        proof {
            lemma_concat_upto_step(old(w).lines_view(), k as int, per);
        }
        let inst = &insts[k];
        let ghost v = is[k as int] as int;
        assert(inst.0 == v);
        let ghost before = w.lines_view();
        if has_user_loc(m, inst) {
            match inst.called_fn_name(m) {
                Some(callee) => {
                    let loc = inst.debug_loc(m).unwrap();
                    let name = func.name(m);
                    let ghost g = |p: Seq<char>| if pattern_matches(p, m.called_fn_name(v).unwrap()) {
                        Some(loc_line(m.function_name(f as int), m.debug_loc(v).unwrap().filename@, m.debug_loc(v).unwrap().line as nat))
                    } else {
                        None
                    };
                    assert(before + pats.take(0).filter_map(g) =~= before);
                    for i in 0..np
                        invariant
                            np == patterns@.len(),
                            pats == strings_view(patterns@),
                            callee@ == m.called_fn_name(v).unwrap(),
                            name@ == m.function_name(f as int),
                            loc.filename@ == m.debug_loc(v).unwrap().filename@,
                            loc.line == m.debug_loc(v).unwrap().line,
                            g == (|p: Seq<char>| if pattern_matches(p, m.called_fn_name(v).unwrap()) {
                                Some(loc_line(m.function_name(f as int), m.debug_loc(v).unwrap().filename@, m.debug_loc(v).unwrap().line as nat))
                            } else {
                                None
                            }),
                            w.lines_view() == before + pats.take(i as int).filter_map(g),
                            w.detector == old(w).detector,
                    {
                        proof {
                            pats.lemma_filter_map_take_succ(g, i as int);
                        }
                        assert(patterns@[i as int]@ == pats[i as int]);
                        if is_match(patterns[i].as_str(), callee) {
                            w.write(name, loc.filename.as_str(), loc.line);
                        }
                        assert(w.lines_view() =~= before + pats.take(i + 1).filter_map(g));
                    }
                    assert(pats.take(np as int) =~= pats);
                    assert(ext_lines_at(m, f as int, v, pats) == pats.filter_map(g));
                },
                None => {
                    assert(w.lines_view() =~= before + ext_lines_at(m, f as int, v, pats));
                },
            }
        } else {
            assert(w.lines_view() =~= before + ext_lines_at(m, f as int, v, pats));
        }
    }
}

/// Records every call in user code whose callee matches one of `patterns`,
/// once per matching pattern.
pub fn ext_call(m: &Module, patterns: &Vec<String>, w: &mut TmpWriter)
    requires
        m.wf(),
    ensures
        final(w).lines_view() == old(w).lines_view() + module_lines(
            m,
            |f: int| ext_call_fn(m, f, strings_view(patterns@)),
        ),
        final(w).detector == old(w).detector,
{
    let ghost per = |f: int| ext_call_fn(m, f, strings_view(patterns@));
    let n = m.functions.len();
    for k in 0..n
        invariant
            m.wf(),
            n == m.functions@.len(),
            per == (|f: int| ext_call_fn(m, f, strings_view(patterns@))),
            w.lines_view() == old(w).lines_view() + concat_upto(k as int, per),
            w.detector == old(w).detector,
    {
        ext_call_in(m, k, patterns, w);
        proof {
            lemma_concat_upto_step(old(w).lines_view(), k as int, per);
        }
    }
}

} // verus!
