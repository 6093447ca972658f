//! Call-graph queries: which calls match a pattern, transitively; who calls a
//! function; and whether a function checks its caller's identity.
//!
//! The transitive call search and the owner-check search keep a visited mark
//! per function, as the analyses they serve do, and are stated by spec
//! functions that follow them step by step; the public functions give them
//! enough fuel that it never runs out, and `reach` states what they answer in
//! terms of the call graph. The caller search goes level by level and is
//! stated directly: the callers at most `depth` uses away.
use vstd::prelude::*;
use crate::ir::{DebugLoc, FunctionRef, InstructionRef, Module, all_instructions, fn_insts, all_below};
use crate::patterns::{is_lib_loc, is_match, pattern_matches, lib_loc_pattern, predecessor_account_id, account_id_eq};
use crate::text::{starts_with, str_starts_with};

verus! {

/// The call `v` directly calls a function whose name matches `p`.
pub open spec fn inst_calls(m: &Module, v: int, p: Seq<char>) -> bool {
    m.called_fn_name(v) matches Some(n) && pattern_matches(p, n)
}

/// True if the instruction calls a function whose name matches `pattern`.
pub fn is_inst_call_func(m: &Module, inst: &InstructionRef, pattern: &str) -> (r: bool)
    requires
        m.wf(),
        inst.0 < m.values@.len(),
    ensures
        r == inst_calls(m, inst.0 as int, pattern@),
{
    match inst.called_fn_name(m) {
        Some(n) => is_match(pattern, n),
        None => false,
    }
}

pub open spec fn llvm_prefix() -> Seq<char> {
    seq!['l', 'l', 'v', 'm']
}

/// The search from function `f` for a call matching `p`, with visited marks `vis`:
/// whether it finds one, and the marks afterwards.
pub open spec fn calls_rec(m: &Module, f: int, p: Seq<char>, vis: Seq<bool>, fuel: nat) -> (bool, Seq<bool>)
    decreases fuel, 0int,
{
    if vis[f] || fuel == 0 {
        (false, vis)
    } else {
        calls_insts(m, fn_insts(m, f), 0, p, vis.update(f, true), (fuel - 1) as nat)
    }
}

/// The search through the instructions `is[i..]` of one function.
pub open spec fn calls_insts(
    m: &Module,
    is: Seq<usize>,
    i: int,
    p: Seq<char>,
    vis: Seq<bool>,
    fuel: nat,
) -> (bool, Seq<bool>)
    decreases fuel, is.len() - i,
{
    if i < 0 || i >= is.len() {
        (false, vis)
    } else {
        let v = is[i] as int;
        match m.called_fn_name(v) {
            Some(n) => if pattern_matches(p, n) {
                (true, vis)
            } else if !starts_with(n, llvm_prefix()) {
                let (b, vis2) = calls_rec(m, m.called_function(v).unwrap() as int, p, vis, fuel);
                if b {
                    (true, vis2)
                } else {
                    calls_insts(m, is, i + 1, p, vis2, fuel)
                }
            } else {
                calls_insts(m, is, i + 1, p, vis, fuel)
            },
            None => calls_insts(m, is, i + 1, p, vis, fuel),
        }
    }
}

fn calls_rec_exec(m: &Module, f: usize, pattern: &str, vis: &mut Vec<bool>, fuel: usize) -> (r: bool)
    requires
        m.wf(),
        f < m.functions@.len(),
        old(vis)@.len() == m.functions@.len(),
    ensures
        (r, final(vis)@) == calls_rec(m, f as int, pattern@, old(vis)@, fuel as nat),
        final(vis)@.len() == m.functions@.len(),
    decreases fuel,
{
    if vis[f] || fuel == 0 {
        return false;
    }
    vis.set(f, true);
    let ghost vis1 = vis@;
    let insts = all_instructions(m, &FunctionRef(f));
    let ghost is = fn_insts(m, f as int);
    assert(insts@.len() == is.len());
    let n = insts.len();
    let mut k: usize = 0;
    while k < n
        invariant
            m.wf(),
            fuel > 0,
            n == insts@.len(),
            n == is.len(),
            is == fn_insts(m, f as int),
            forall|j: int| 0 <= j < n ==> (#[trigger] insts@[j]).0 == is[j],
            forall|j: int| 0 <= j < n ==> (#[trigger] insts@[j]).0 < m.values@.len(),
            k <= n,
            vis@.len() == m.functions@.len(),
            calls_insts(m, is, k as int, pattern@, vis@, (fuel - 1) as nat)
                == calls_insts(m, is, 0, pattern@, vis1, (fuel - 1) as nat),
            calls_rec(m, f as int, pattern@, old(vis)@, fuel as nat)
                == calls_insts(m, is, 0, pattern@, vis1, (fuel - 1) as nat),
        decreases n - k,
    {
        let inst = &insts[k];
        assert(inst.0 == is[k as int]);
        match inst.called_fn_name(m) {
            Some(name) => {
                if is_match(pattern, name) {
                    assert(calls_insts(m, is, k as int, pattern@, vis@, (fuel - 1) as nat) == (true, vis@));
                    return true;
                }
                let llvm = str_starts_with(name, "llvm");
                proof {
                    reveal_strlit("llvm");
                    assert("llvm"@ == llvm_prefix());
                }
                if !llvm {
                    let g = m.direct_callee(inst.0).unwrap();
                    if calls_rec_exec(m, g, pattern, vis, fuel - 1) {
                        return true;
                    }
                }
            },
            None => {},
        }
        k += 1;
    }
    false
}

/// A visited mark per function, none set.
pub fn no_functions(m: &Module) -> (r: Vec<bool>)
    ensures
        r@ == Seq::new(m.functions@.len(), |k: int| false),
{
    let n = m.functions.len();
    let mut r: Vec<bool> = Vec::new();
    for k in 0..n
        invariant
            n == m.functions@.len(),
            r@ == Seq::new(k as nat, |j: int| false),
    {
        r.push(false);
        assert(r@ == Seq::new((k + 1) as nat, |j: int| false));
    }
    r
}

/// The search from `f` with no function visited yet.
pub open spec fn calls_from(m: &Module, f: int, p: Seq<char>) -> bool {
    calls_rec(m, f, p, Seq::new(m.functions@.len(), |k: int| false), m.functions@.len() as nat).0
}

/// `v` calls a function matching `p`, or calls a function (not an `llvm`
/// intrinsic) from which such a call is reachable.
pub open spec fn inst_calls_rec(m: &Module, v: int, p: Seq<char>) -> bool {
    inst_calls(m, v, p) || (m.called_function(v) matches Some(f) && !starts_with(m.function_name(f as int), llvm_prefix())
        && calls_from(m, f as int, p))
}

/// True if `inst` calls a function matching `pattern`, directly or through the
/// functions it calls (other than `llvm` intrinsics).
pub fn is_inst_call_func_rec(m: &Module, inst: &InstructionRef, pattern: &str) -> (r: bool)
    requires
        m.wf(),
        inst.0 < m.values@.len(),
    ensures
        r == inst_calls_rec(m, inst.0 as int, pattern@),
{
    if is_inst_call_func(m, inst, pattern) {
        return true;
    }
    match m.direct_callee(inst.0) {
        Some(f) => {
            let name = FunctionRef(f).name(m);
            proof {
                reveal_strlit("llvm");
                assert("llvm"@ == llvm_prefix());
            }
            if str_starts_with(name, "llvm") {
                return false;
            }
            let mut vis = no_functions(m);
            calls_rec_exec(m, f, pattern, &mut vis, m.functions.len())
        },
        None => false,
    }
}

/// True if `func` calls a function matching `pattern`, directly or transitively.
pub fn func_calls_func_rec(m: &Module, func: &FunctionRef, pattern: &str) -> (r: bool)
    requires
        m.wf(),
        func.0 < m.functions@.len(),
    ensures
        r == (!starts_with(m.function_name(func.0 as int), llvm_prefix())
            && m.function_name(func.0 as int).len() != 0 && calls_from(m, func.0 as int, pattern@)),
{
    let name = func.name(m);
    proof {
        reveal_strlit("llvm");
        assert("llvm"@ == llvm_prefix());
    }
    if str_starts_with(name, "llvm") || name.is_empty() {
        return false;
    }
    let mut vis = no_functions(m);
    calls_rec_exec(m, func.0, pattern, &mut vis, m.functions.len())
}

/// Some instruction of function `g` uses function `f` (calls it, or takes
/// its address).
pub open spec fn uses_fn(m: &Module, g: int, f: int) -> bool {
    let us = m.values[m.functions[f].value as int].users@;
    exists|i: int| 0 <= i < us.len() && #[trigger] m.parent_function(us[i] as int) == Some(g as usize)
}

/// `h` is a caller of `f` at most `d` levels up: it uses `f`, or uses a
/// function that is a caller of `f` at most `d - 1` levels up.
pub open spec fn caller_within(m: &Module, f: int, h: int, d: nat) -> bool
    decreases d,
{
    d >= 1 && (uses_fn(m, h, f) || exists|g: int|
        0 <= g < m.functions@.len() && #[trigger] uses_fn(m, h, g) && caller_within(m, f, g, (d - 1) as nat))
}

proof fn lemma_caller_within_next(m: &Module, f: int, h: int, d: nat)
    ensures
        caller_within(m, f, h, d + 1) <==> (uses_fn(m, h, f) || exists|g: int|
            0 <= g < m.functions@.len() && #[trigger] caller_within(m, f, g, d) && #[trigger] uses_fn(m, h, g)),
{
    let e = (d + 1) as nat;
    assert((e - 1) as nat == d);
    if caller_within(m, f, h, e) && !uses_fn(m, h, f) {
        let g = choose|g: int| 0 <= g < m.functions@.len() && #[trigger] uses_fn(m, h, g)
            && caller_within(m, f, g, (e - 1) as nat);
        assert(caller_within(m, f, g, d) && uses_fn(m, h, g));
    }
    if !uses_fn(m, h, f) && exists|g: int|
        0 <= g < m.functions@.len() && #[trigger] caller_within(m, f, g, d) && #[trigger] uses_fn(m, h, g) {
        let g = choose|g: int| 0 <= g < m.functions@.len() && #[trigger] caller_within(m, f, g, d)
            && #[trigger] uses_fn(m, h, g);
        assert(caller_within(m, f, g, (e - 1) as nat) && uses_fn(m, h, g));
    }
}

/// One of the first `j` users of function `g` lies in function `h`.
spec fn used_before(m: &Module, g: int, h: int, j: int) -> bool {
    let us = m.values[m.functions[g].value as int].users@;
    exists|i: int| 0 <= i < j && #[trigger] m.parent_function(us[i] as int) == Some(h as usize)
}

/// Function `g` is where a search of one more level starts: `f` itself, or a
/// caller found at most `d` levels up.
spec fn level_source(m: &Module, f: int, g: int, d: nat) -> bool {
    g == f || caller_within(m, f, g, d)
}

/// `h` uses one of the sources among the first `g` functions.
spec fn found_before(m: &Module, f: int, h: int, d: nat, g: int) -> bool {
    exists|k: int| 0 <= k < g && #[trigger] level_source(m, f, k, d) && uses_fn(m, h, k)
}

/// The callers at most `d + 1` levels up, from those at most `d` levels up.
fn callers_next_level(m: &Module, f: usize, prev: &Vec<bool>, Ghost(d): Ghost<nat>) -> (next: Vec<bool>)
    requires
        m.wf(),
        f < m.functions@.len(),
        prev@ == Seq::new(m.functions@.len(), |h: int| caller_within(m, f as int, h, d)),
    ensures
        next@ == Seq::new(m.functions@.len(), |h: int| caller_within(m, f as int, h, d + 1)),
{
    let nf = m.functions.len();
    let mut next = no_functions(m);
    for g in 0..nf
        invariant
            m.wf(),
            nf == m.functions@.len(),
            f < nf,
            prev@ == Seq::new(m.functions@.len(), |h: int| caller_within(m, f as int, h, d)),
            next@.len() == nf,
            forall|h: int| 0 <= h < nf ==> (next@[h] <==> found_before(m, f as int, h, d, g as int)),
    {
        let src = g == f || prev[g];
        assert(src == level_source(m, f as int, g as int, d));
        if src {
            assert(m.function_wf(g as int));
            let gv = m.functions[g].value;
            assert(m.value_wf(gv as int));
            let users = &m.values[gv].users;
            let n = users.len();
            for j in 0..n
                invariant
                    m.wf(),
                    nf == m.functions@.len(),
                    g < nf,
                    n == users@.len(),
                    gv < m.values@.len(),
                    gv == m.functions@[g as int].value,
                    users@ == m.values@[gv as int].users@,
                    all_below(users@, m.nvalues()),
                    level_source(m, f as int, g as int, d),
                    next@.len() == nf,
                    forall|h: int| 0 <= h < nf ==> (next@[h] <==> (found_before(m, f as int, h, d, g as int)
                        || used_before(m, g as int, h, j as int))),
            {
                let u = users[j];
                match m.inst_data(u) {
                    Some(i) => {
                        assert(m.value_wf(u as int));
                        assert(m.block_wf(i.block as int));
                        let p = m.blocks[i.block].func;
                        assert(m.parent_function(users@[j as int] as int) == Some(p));
                        next.set(p, true);
                        assert forall|h: int| 0 <= h < nf implies (next@[h] <==> (found_before(m, f as int, h, d, g as int)
                            || used_before(m, g as int, h, j + 1))) by {
                            if h == p as int {
                                assert(used_before(m, g as int, h, j + 1));
                            } else {
                                if used_before(m, g as int, h, j + 1) {
                                    let i2 = choose|i2: int| 0 <= i2 < j + 1 && #[trigger] m.parent_function(users@[i2] as int) == Some(h as usize);
                                    assert(i2 != j);
                                    assert(used_before(m, g as int, h, j as int));
                                }
                            }
                        }
                    },
                    None => {
                        assert(m.parent_function(users@[j as int] as int) is None);
                        assert forall|h: int| 0 <= h < nf implies (used_before(m, g as int, h, j + 1)
                            <==> used_before(m, g as int, h, j as int)) by {
                            if used_before(m, g as int, h, j + 1) {
                                let i2 = choose|i2: int| 0 <= i2 < j + 1 && #[trigger] m.parent_function(users@[i2] as int) == Some(h as usize);
                                assert(i2 != j);
                            }
                        }
                    },
                }
            }
            assert forall|h: int| 0 <= h < nf implies (next@[h] <==> found_before(m, f as int, h, d, g + 1)) by {
                if used_before(m, g as int, h, n as int) {
                    assert(uses_fn(m, h, g as int));
                    assert(level_source(m, f as int, g as int, d) && uses_fn(m, h, g as int));
                }
                if found_before(m, f as int, h, d, g + 1) && !found_before(m, f as int, h, d, g as int) {
                    let k = choose|k: int| 0 <= k < g + 1 && #[trigger] level_source(m, f as int, k, d) && uses_fn(m, h, k);
                    assert(k == g);
                    assert(used_before(m, g as int, h, n as int));
                }
            }
        } else {
            assert forall|h: int| 0 <= h < nf implies (next@[h] <==> found_before(m, f as int, h, d, g + 1)) by {
                if found_before(m, f as int, h, d, g + 1) {
                    let k = choose|k: int| 0 <= k < g + 1 && #[trigger] level_source(m, f as int, k, d) && uses_fn(m, h, k);
                    assert(k != g);
                }
            }
        }
    }
    assert forall|h: int| 0 <= h < nf implies (next@[h] == caller_within(m, f as int, h, d + 1)) by {
        lemma_caller_within_next(m, f as int, h, d);
        if found_before(m, f as int, h, d, nf as int) {
            let k = choose|k: int| 0 <= k < nf && #[trigger] level_source(m, f as int, k, d) && uses_fn(m, h, k);
            if k != f {
                assert(caller_within(m, f as int, k, d) && uses_fn(m, h, k));
            }
        }
        if caller_within(m, f as int, h, d + 1) {
            if uses_fn(m, h, f as int) {
                assert(level_source(m, f as int, f as int, d));
            } else {
                let k = choose|k: int| 0 <= k < m.functions@.len() && #[trigger] caller_within(m, f as int, k, d)
                    && #[trigger] uses_fn(m, h, k);
                assert(level_source(m, f as int, k, d));
            }
        }
    }
    next
}

/// All the callers of `func` up to `depth` levels up, as one mark per
/// function: each function that uses `func`, or uses a function that does,
/// and so on, through at most `depth` uses.
pub fn find_function_callers(m: &Module, func: &FunctionRef, depth: u32) -> (r: Vec<bool>)
    requires
        m.wf(),
        func.0 < m.functions@.len(),
    ensures
        r@ == Seq::new(m.functions@.len(), |h: int| caller_within(m, func.0 as int, h, depth as nat)),
{
    let mut set = no_functions(m);
    assert(set@ =~= Seq::new(m.functions@.len(), |h: int| caller_within(m, func.0 as int, h, 0)));
    let mut k: u32 = 0;
    while k < depth
        invariant
            m.wf(),
            func.0 < m.functions@.len(),
            k <= depth,
            set@ == Seq::new(m.functions@.len(), |h: int| caller_within(m, func.0 as int, h, k as nat)),
        decreases depth - k,
    {
        set = callers_next_level(m, func.0, &set, Ghost(k as nat));
        k += 1;
    }
    set
}

/// The instruction has a debug location outside library code.
pub open spec fn user_loc(m: &Module, v: int) -> bool {
    m.debug_loc(v) matches Some(l) && !pattern_matches(lib_loc_pattern(), l.filename@)
}

/// Some instruction of `is` calls a function matching `p`.
pub open spec fn some_inst_calls(m: &Module, is: Seq<usize>, p: Seq<char>) -> bool {
    exists|k: int| 0 <= k < is.len() && inst_calls(m, #[trigger] is[k] as int, p)
}

/// The privilege search from `f` at depth `depth`: whether it finds an owner
/// check, and the visited marks afterwards.
pub open spec fn privileged_rec(m: &Module, f: int, depth: int, vis: Seq<bool>) -> (bool, Seq<bool>)
    decreases depth + 1, fn_insts(m, f).len() + 1,
{
    if depth < 0 || vis[f] {
        (false, vis)
    } else {
        privileged_insts(m, f, fn_insts(m, f), 0, depth, vis.update(f, true))
    }
}

pub open spec fn privileged_insts(
    m: &Module,
    f: int,
    is: Seq<usize>,
    i: int,
    depth: int,
    vis: Seq<bool>,
) -> (bool, Seq<bool>)
    decreases depth + 1, is.len() - i,
{
    if depth < 0 || i < 0 || i >= is.len() {
        (false, vis)
    } else {
        let v = is[i] as int;
        if !user_loc(m, v) {
            privileged_insts(m, f, is, i + 1, depth, vis)
        } else if inst_calls(m, v, predecessor_pattern()) {
            if some_inst_calls(m, is, account_eq_pattern()) {
                (true, vis)
            } else {
                privileged_insts(m, f, is, i + 1, depth, vis)
            }
        } else if m.is_call(v) && m.called_function(v) is Some {
            let (b, vis2) = privileged_rec(m, m.called_function(v).unwrap() as int, depth - 1, vis);
            if b {
                (true, vis2)
            } else {
                privileged_insts(m, f, is, i + 1, depth, vis2)
            }
        } else {
            privileged_insts(m, f, is, i + 1, depth, vis)
        }
    }
}

pub open spec fn predecessor_pattern() -> Seq<char> {
    r"near_sdk[0-9]+environment[0-9]+env[0-9]+predecessor_account_id"@
}

pub open spec fn account_eq_pattern() -> Seq<char> {
    r"near_sdk\.\.types\.\.account_id\.\.AccountId.+core\.\.cmp\.\.PartialEq"@
}

/// The instruction's debug location lies outside library code.
pub fn has_user_loc(m: &Module, inst: &InstructionRef) -> (r: bool)
    requires
        inst.0 < m.values@.len(),
    ensures
        r == user_loc(m, inst.0 as int),
{
    match inst.debug_loc(m) {
        Some(l) => !is_lib_loc(l.filename.as_str()),
        None => false,
    }
}

fn calls_any(m: &Module, insts: &Vec<InstructionRef>, pattern: &str) -> (r: bool)
    requires
        m.wf(),
        forall|j: int| 0 <= j < insts@.len() ==> (#[trigger] insts@[j]).0 < m.values@.len(),
    ensures
        r == exists|k: int| 0 <= k < insts@.len() && inst_calls(m, #[trigger] insts@[k].0 as int, pattern@),
{
    let n = insts.len();
    for k in 0..n
        invariant
            m.wf(),
            n == insts@.len(),
            forall|j: int| 0 <= j < insts@.len() ==> (#[trigger] insts@[j]).0 < m.values@.len(),
            forall|j: int| 0 <= j < k ==> !inst_calls(m, #[trigger] insts@[j].0 as int, pattern@),
    {
        if is_inst_call_func(m, &insts[k], pattern) {
            return true;
        }
    }
    false
}

fn privileged_rec_exec(m: &Module, f: usize, depth: i32, vis: &mut Vec<bool>) -> (r: bool)
    requires
        m.wf(),
        f < m.functions@.len(),
        old(vis)@.len() == m.functions@.len(),
    ensures
        (r, final(vis)@) == privileged_rec(m, f as int, depth as int, old(vis)@),
        final(vis)@.len() == m.functions@.len(),
    decreases depth + 1,
{
    if depth < 0 || vis[f] {
        return false;
    }
    vis.set(f, true);
    let ghost vis1 = vis@;
    let pred = predecessor_account_id();
    let eq = account_id_eq();
    let insts = all_instructions(m, &FunctionRef(f));
    let ghost is = fn_insts(m, f as int);
    let n = insts.len();
    assert(is.len() == n);
    let eq_any = calls_any(m, &insts, eq);
    assert(eq_any == some_inst_calls(m, is, account_eq_pattern())) by {
        if eq_any {
            let k = choose|k: int| 0 <= k < insts@.len() && inst_calls(m, #[trigger] insts@[k].0 as int, eq@);
            assert(insts@[k].0 == is[k]);
        }
        if some_inst_calls(m, is, account_eq_pattern()) {
            let k = choose|k: int| 0 <= k < is.len() && inst_calls(m, #[trigger] is[k] as int, account_eq_pattern());
            assert(insts@[k].0 == is[k]);
        }
    }
    let mut k: usize = 0;
    while k < n
        invariant
            m.wf(),
            depth >= 0,
            f < m.functions@.len(),
            n == insts@.len(),
            n == is.len(),
            is == fn_insts(m, f as int),
            pred@ == predecessor_pattern(),
            eq_any == some_inst_calls(m, is, account_eq_pattern()),
            forall|j: int| 0 <= j < n ==> (#[trigger] insts@[j]).0 == is[j],
            forall|j: int| 0 <= j < n ==> (#[trigger] insts@[j]).0 < m.values@.len(),
            k <= n,
            vis@.len() == m.functions@.len(),
            privileged_insts(m, f as int, is, k as int, depth as int, vis@)
                == privileged_insts(m, f as int, is, 0, depth as int, vis1),
            privileged_rec(m, f as int, depth as int, old(vis)@)
                == privileged_insts(m, f as int, is, 0, depth as int, vis1),
        decreases n - k,
    {
        let inst = &insts[k];
        assert(inst.0 == is[k as int]);
        if has_user_loc(m, inst) {
            if is_inst_call_func(m, inst, pred) {
                if eq_any {
                    return true;
                }
            } else if inst.is_call(m) {
                match m.direct_callee(inst.0) {
                    Some(g) => {
                        if privileged_rec_exec(m, g, depth - 1, vis) {
                            return true;
                        }
                    },
                    None => {},
                }
            }
        }
        k += 1;
    }
    false
}

/// The privilege search from `f` with nothing visited, at depth 5.
pub open spec fn privileged(m: &Module, f: int) -> bool {
    privileged_rec(m, f, 5, Seq::new(m.functions@.len(), |k: int| false)).0
}

/// True if `func` performs an owner/access check: an instruction with a
/// non-library location calls `predecessor_account_id` while the function also
/// calls `AccountId::eq`, in `func` or in a function it calls (five levels deep).
pub fn is_func_privileged(m: &Module, func: &FunctionRef) -> (r: bool)
    requires
        m.wf(),
        func.0 < m.functions@.len(),
    ensures
        r == privileged(m, func.0 as int),
{
    let mut vis = no_functions(m);
    privileged_rec_exec(m, func.0, 5, &mut vis)
}

impl InstructionRef {
    /// True if this calls an LLVM `*.mul.with.overflow.*` intrinsic.
    pub fn is_llvm_mul_overflow(&self, m: &Module) -> (r: bool)
        requires
            m.wf(),
            self.0 < m.values@.len(),
        ensures
            r == inst_calls(m, self.0 as int, r"llvm\.[a-z]?mul\.with\.overflow\."@),
    {
        is_inst_call_func(m, self, crate::patterns::llvm_mul_overflow())
    }
}

} // verus!
