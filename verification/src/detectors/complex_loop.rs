//! complex_loop: loops whose weighted instruction count exceeds a threshold.
//!
//! A depth-first search over the control-flow graph finds back edges; the
//! blocks on the search stack from the edge's target up to its source form the
//! loop body. Instructions are counted in the body, calls counting the
//! instructions of the called function (two levels deep).
//!
//! The search is bounded by one level per block, which never cuts it short
//! (`lemma_dfs_enough_fuel`). It finishes every block it can reach through
//! unreached blocks and keeps the stack equal to the blocks in progress
//! (`lemma_dfs_coloring`), and every loop it records is a back edge
//! (`lemma_dfs_back_edges`).
//!
//! Output lines: `funcname@filename@line` at the loop header.
use vstd::prelude::*;
use crate::ir::{BasicBlockRef, DebugLoc, FunctionRef, InstructionRef, Module, all_below, all_instructions, fn_insts, raw_bb_instructions};
use crate::output::{TmpWriter, loc_line};
use crate::patterns::is_lib_func;
use crate::callgraph::{has_user_loc, no_functions, user_loc};
use super::common::{concat_upto, lemma_concat_upto_step, module_lines, is_lib_name, first_index, lemma_first_index, lemma_first_index_some,
    lemma_first_index_none};

verus! {

/// Loops whose weighted instruction count is above this are reported.
pub const MIN_INST_NUM_FOR_LOOP: i32 = 100;

pub open spec fn cap(x: int) -> int {
    if x > i32::MAX { i32::MAX as int } else { x }
}

/// The instruction count of `f` (calls count their callee, `depth` levels
/// deep), and the visited marks afterwards.
pub open spec fn count_rec(m: &Module, f: int, depth: nat, vis: Seq<bool>) -> (nat, Seq<bool>)
    decreases depth, fn_insts(m, f).len() + 1,
{
    if depth == 0 || is_lib_name(m, f) || vis[f] {
        (0, vis)
    } else {
        count_insts(m, fn_insts(m, f), 0, (depth - 1) as nat, vis.update(f, true))
    }
}

/// The count of the instructions `is[i..]`, callees counted `depth` levels deep.
pub open spec fn count_insts(m: &Module, is: Seq<usize>, i: int, depth: nat, vis: Seq<bool>) -> (nat, Seq<bool>)
    decreases depth + 1, is.len() - i,
{
    if i < 0 || i >= is.len() {
        (0, vis)
    } else {
        let v = is[i] as int;
        let (c, vis1) = if m.is_call(v) {
            match m.called_function(v) {
                Some(g) => count_rec(m, g as int, depth, vis),
                None => (0, vis),
            }
        } else {
            (1, vis)
        };
        let (rest, vis2) = count_insts(m, is, i + 1, depth, vis1);
        (c + rest, vis2)
    }
}

/// Adds without passing `i32::MAX`.
fn add_capped(a: i32, b: i32) -> (r: i32)
    requires
        a >= 0,
        b >= 0,
    ensures
        r == cap(a + b),
{
    if a > i32::MAX - b {
        i32::MAX
    } else {
        a + b
    }
}

fn count_insts_exec(
    m: &Module,
    insts: &Vec<InstructionRef>,
    Ghost(is): Ghost<Seq<usize>>,
    depth: u8,
    visited: &mut Vec<bool>,
) -> (r: i32)
    requires
        m.wf(),
        insts@.len() == is.len(),
        forall|j: int| 0 <= j < is.len() ==> (#[trigger] insts@[j]).0 == is[j],
        forall|j: int| 0 <= j < is.len() ==> (#[trigger] insts@[j]).0 < m.values@.len(),
        old(visited)@.len() == m.functions@.len(),
    ensures
        (cap(count_insts(m, is, 0, depth as nat, old(visited)@).0 as int), final(visited)@)
            == (r as int, count_insts(m, is, 0, depth as nat, old(visited)@).1),
        final(visited)@.len() == m.functions@.len(),
        r >= 0,
    decreases depth + 1, 0int,
{
    let n = insts.len();
    let mut count: i32 = 0;
    let mut k: usize = 0;
    let ghost vis0 = visited@;
    while k < n
        invariant
            m.wf(),
            n == insts@.len(),
            n == is.len(),
            forall|j: int| 0 <= j < n ==> (#[trigger] insts@[j]).0 == is[j],
            forall|j: int| 0 <= j < n ==> (#[trigger] insts@[j]).0 < m.values@.len(),
            visited@.len() == m.functions@.len(),
            k <= n,
            count >= 0,
            vis0 == old(visited)@,
            ({
                let total = count_insts(m, is, 0, depth as nat, vis0);
                let rest = count_insts(m, is, k as int, depth as nat, visited@);
                &&& cap(total.0 as int) == cap(count + rest.0)
                &&& total.1 == rest.1
            }),
        decreases n - k,
    {
        let inst = &insts[k];
        assert(inst.0 == is[k as int]);
        let ghost before = visited@;
        let c: i32 = if inst.is_call(m) {
            match m.direct_callee(inst.0) {
                Some(g) => count_func_instructions(m, &FunctionRef(g), depth, visited),
                None => 0,
            }
        } else {
            1
        };
        let ghost rest_k = count_insts(m, is, k as int, depth as nat, before);
        let ghost rest_k1 = count_insts(m, is, k + 1, depth as nat, visited@);
        assert(cap(rest_k.0 as int) == cap(c + rest_k1.0) && rest_k.1 == rest_k1.1);
        count = add_capped(count, c);
        k += 1;
    }
    count
}

/// The number of non-call instructions of `func`, with each direct call
/// counting the instructions of the called function, recursively up to `depth`
/// levels. Library functions and functions already in `visited` count 0.
/// Counts stop growing at `i32::MAX`.
pub fn count_func_instructions(m: &Module, func: &FunctionRef, depth: u8, visited: &mut Vec<bool>) -> (r: i32)
    requires
        m.wf(),
        func.0 < m.functions@.len(),
        old(visited)@.len() == m.functions@.len(),
    ensures
        r == cap(count_rec(m, func.0 as int, depth as nat, old(visited)@).0 as int),
        final(visited)@ == count_rec(m, func.0 as int, depth as nat, old(visited)@).1,
        final(visited)@.len() == m.functions@.len(),
        r >= 0,
    decreases depth, 1int,
{
    if depth == 0 || is_lib_func(func.name(m)) || visited[func.0] {
        return 0;
    }
    visited.set(func.0, true);
    let insts = all_instructions(m, func);
    let ghost is = fn_insts(m, func.0 as int);
    count_insts_exec(m, &insts, Ghost(is), depth - 1, visited)
}

/// The count of a loop body: the blocks `body[..n]`, callees counted two levels deep.
pub open spec fn body_count(m: &Module, body: Seq<usize>, n: int, vis: Seq<bool>) -> (nat, Seq<bool>)
    decreases n,
{
    if n <= 0 {
        (0, vis)
    } else {
        let (a, vis1) = body_count(m, body, n - 1, vis);
        let (b, vis2) = count_insts(m, m.blocks[body[n - 1] as int].insts@, 0, 2, vis1);
        (a + b, vis2)
    }
}

/// The weighted instruction count of a loop body; counts stop at `i32::MAX`.
pub fn count_loop_instructions(m: &Module, loop_body: &Vec<usize>, visited: &mut Vec<bool>) -> (r: i32)
    requires
        m.wf(),
        forall|k: int| 0 <= k < loop_body@.len() ==> #[trigger] loop_body@[k] < m.blocks@.len(),
        old(visited)@.len() == m.functions@.len(),
    ensures
        r == cap(body_count(m, loop_body@, loop_body@.len() as int, old(visited)@).0 as int),
        final(visited)@ == body_count(m, loop_body@, loop_body@.len() as int, old(visited)@).1,
        final(visited)@.len() == m.functions@.len(),
{
    let n = loop_body.len();
    let mut count: i32 = 0;
    for k in 0..n
        invariant
            m.wf(),
            n == loop_body@.len(),
            forall|j: int| 0 <= j < loop_body@.len() ==> #[trigger] loop_body@[j] < m.blocks@.len(),
            visited@.len() == m.functions@.len(),
            count >= 0,
            count == cap(body_count(m, loop_body@, k as int, old(visited)@).0 as int),
            visited@ == body_count(m, loop_body@, k as int, old(visited)@).1,
    {
        let b = loop_body[k];
        assert(m.block_wf(b as int));
        let insts = raw_bb_instructions(m, b);
        let c = count_insts_exec(m, &insts, Ghost(m.blocks@[b as int].insts@), 2, visited);
        count = add_capped(count, c);
    }
    count
}

/// A loop found by the search: its header block and its body.
pub struct LoopInfo {
    pub header: usize,
    pub body: Vec<usize>,
}

/// Depth-first search state for back-edge detection.
pub struct LoopDetector {
    /// Per block: 0 = unvisited, 1 = on the search stack, 2 = done.
    pub color: Vec<u8>,
    pub stack: Vec<usize>,
    pub loops: Vec<LoopInfo>,
}

/// The abstract search state: colors, stack, and loops found as (header, body).
pub struct DfsState {
    pub color: Seq<u8>,
    pub stack: Seq<usize>,
    pub loops: Seq<(usize, Seq<usize>)>,
}

impl LoopDetector {
    pub open spec fn state(&self) -> DfsState {
        DfsState {
            color: self.color@,
            stack: self.stack@,
            loops: Seq::new(self.loops@.len(), |i: int| (self.loops@[i].header, self.loops@[i].body@)),
        }
    }

    /// A search state for `m` with every block unvisited.
    pub fn new(m: &Module) -> (r: LoopDetector)
        ensures
            r.color@ == Seq::new(m.blocks@.len(), |k: int| 0u8),
            r.stack@ == Seq::<usize>::empty(),
            r.loops@.len() == 0,
    {
        let n = m.blocks.len();
        let mut color: Vec<u8> = Vec::new();
        for k in 0..n
            invariant
                n == m.blocks@.len(),
                color@ == Seq::new(k as nat, |j: int| 0u8),
        {
            color.push(0);
            assert(color@ == Seq::new((k + 1) as nat, |j: int| 0u8));
        }
        LoopDetector { color, stack: Vec::new(), loops: Vec::new() }
    }
}

/// Where `b` first occurs in `stack`.
pub open spec fn stack_position(stack: Seq<usize>, b: usize) -> Option<int> {
    first_index(stack.len() as int, is_at(stack, b))
}

pub open spec fn is_at(stack: Seq<usize>, b: usize) -> spec_fn(int) -> bool {
    |k: int| stack[k] == b
}

/// A successor `s` already on the stack closes a loop: its body is the stack
/// from `s` up.
pub open spec fn record_back_edge(st: DfsState, s: usize) -> DfsState {
    match stack_position(st.stack, s) {
        Some(pos) => DfsState {
            color: st.color,
            stack: st.stack,
            loops: st.loops.push((s, st.stack.subrange(pos, st.stack.len() as int))),
        },
        None => st,
    }
}

/// The search from block `b`, at most `fuel` calls deep.
pub open spec fn dfs_spec(m: &Module, b: int, st: DfsState, fuel: nat) -> DfsState
    decreases fuel, 0int,
{
    if fuel == 0 {
        st
    } else {
        let st1 = DfsState { color: st.color.update(b, 1), stack: st.stack.push(b as usize), loops: st.loops };
        let st2 = match m.terminator(b) {
            Some(t) => dfs_succs(m, m.successors(t as int), 0, st1, (fuel - 1) as nat),
            None => st1,
        };
        DfsState { color: st2.color.update(b, 2), stack: st2.stack.drop_last(), loops: st2.loops }
    }
}

/// The search through the successors `ss[i..]` of a block.
pub open spec fn dfs_succs(m: &Module, ss: Seq<usize>, i: int, st: DfsState, fuel: nat) -> DfsState
    decreases fuel, ss.len() - i,
{
    if i < 0 || i >= ss.len() {
        st
    } else {
        let s = ss[i];
        let st1 = if st.color[s as int] == 1 {
            record_back_edge(st, s)
        } else if st.color[s as int] == 0 {
            dfs_spec(m, s as int, st, fuel)
        } else {
            st
        };
        dfs_succs(m, ss, i + 1, st1, fuel)
    }
}

pub open spec fn detector_ok(m: &Module, d: &LoopDetector) -> bool {
    &&& d.color@.len() == m.blocks@.len()
    &&& forall|k: int| 0 <= k < d.stack@.len() ==> #[trigger] d.stack@[k] < m.blocks@.len()
    &&& forall|k: int| 0 <= k < d.loops@.len() ==> #[trigger] d.loops@[k].header < m.blocks@.len()
        && forall|j: int| 0 <= j < d.loops@[k].body@.len() ==> #[trigger] d.loops@[k].body@[j] < m.blocks@.len()
}

/// The search leaves the stack as it found it.
pub proof fn lemma_dfs_stack(m: &Module, b: int, st: DfsState, fuel: nat)
    ensures
        dfs_spec(m, b, st, fuel).stack == st.stack,
    decreases fuel, 0int,
{
    if fuel > 0 {
        let st1 = DfsState { color: st.color.update(b, 1), stack: st.stack.push(b as usize), loops: st.loops };
        match m.terminator(b) {
            Some(t) => {
                lemma_succs_stack(m, m.successors(t as int), 0, st1, (fuel - 1) as nat);
            },
            None => {},
        }
        assert(st.stack.push(b as usize).drop_last() == st.stack);
    }
}

pub proof fn lemma_succs_stack(m: &Module, ss: Seq<usize>, i: int, st: DfsState, fuel: nat)
    ensures
        dfs_succs(m, ss, i, st, fuel).stack == st.stack,
    decreases fuel, ss.len() - i,
{
    if 0 <= i < ss.len() {
        let s = ss[i];
        let st1 = if st.color[s as int] == 1 {
            record_back_edge(st, s)
        } else if st.color[s as int] == 0 {
            lemma_dfs_stack(m, s as int, st, fuel);
            dfs_spec(m, s as int, st, fuel)
        } else {
            st
        };
        lemma_succs_stack(m, ss, i + 1, st1, fuel);
    }
}

/// The number of blocks not yet reached (colour 0).
pub open spec fn whites(c: Seq<u8>) -> nat
    decreases c.len(),
{
    if c.len() == 0 {
        0
    } else {
        whites(c.drop_last()) + if c.last() == 0 {
            1nat
        } else {
            0nat
        }
    }
}

/// No block reached in `c` is unreached in `c2`.
pub open spec fn reached_stays(c: Seq<u8>, c2: Seq<u8>) -> bool {
    c2.len() == c.len() && forall|h: int| 0 <= h < c.len() && #[trigger] c[h] != 0 ==> c2[h] != 0
}

proof fn lemma_whites_update(c: Seq<u8>, h: int, x: u8)
    requires
        0 <= h < c.len(),
        x != 0,
    ensures
        whites(c.update(h, x)) + (if c[h] == 0 { 1nat } else { 0nat }) == whites(c),
    decreases c.len(),
{
    let u = c.update(h, x);
    if h == c.len() - 1 {
        assert(u.drop_last() =~= c.drop_last());
    } else {
        lemma_whites_update(c.drop_last(), h, x);
        assert(u.drop_last() =~= c.drop_last().update(h, x));
    }
}

proof fn lemma_whites_mono(c: Seq<u8>, c2: Seq<u8>)
    requires
        reached_stays(c, c2),
    ensures
        whites(c2) <= whites(c),
    decreases c.len(),
{
    if c.len() > 0 {
        assert(reached_stays(c.drop_last(), c2.drop_last())) by {
            assert forall|h: int| 0 <= h < c.drop_last().len() && #[trigger] c.drop_last()[h] != 0 implies c2.drop_last()[h] != 0 by {
                assert(c[h] != 0);
            }
        }
        lemma_whites_mono(c.drop_last(), c2.drop_last());
        if c.last() != 0 {
            assert(c[c.len() - 1] != 0);
        }
    }
}

proof fn lemma_reached_trans(a: Seq<u8>, b: Seq<u8>, c: Seq<u8>)
    requires
        reached_stays(a, b),
        reached_stays(b, c),
    ensures
        reached_stays(a, c),
{
    assert forall|h: int| 0 <= h < a.len() && #[trigger] a[h] != 0 implies c[h] != 0 by {
        assert(b[h] != 0);
    }
}

/// The search only ever marks blocks, and leaves block `b` finished.
pub proof fn lemma_dfs_reached(m: &Module, b: int, st: DfsState, fuel: nat)
    requires
        m.wf(),
        0 <= b < m.blocks@.len(),
        st.color.len() == m.blocks@.len(),
    ensures
        reached_stays(st.color, dfs_spec(m, b, st, fuel).color),
    decreases fuel, 0int,
{
    if fuel > 0 {
        let st1 = DfsState { color: st.color.update(b, 1), stack: st.stack.push(b as usize), loops: st.loops };
        let st2 = match m.terminator(b) {
            Some(t) => {
                lemma_terminator_succs(m, b);
                lemma_succs_reached(m, m.successors(t as int), 0, st1, (fuel - 1) as nat);
                dfs_succs(m, m.successors(t as int), 0, st1, (fuel - 1) as nat)
            },
            None => st1,
        };
        assert(reached_stays(st.color, st1.color));
        lemma_reached_trans(st.color, st1.color, st2.color);
        assert(reached_stays(st2.color, st2.color.update(b, 2)));
        lemma_reached_trans(st.color, st2.color, st2.color.update(b, 2));
    }
}

proof fn lemma_succs_reached(m: &Module, ss: Seq<usize>, i: int, st: DfsState, fuel: nat)
    requires
        m.wf(),
        all_below(ss, m.nblocks()),
        st.color.len() == m.blocks@.len(),
    ensures
        reached_stays(st.color, dfs_succs(m, ss, i, st, fuel).color),
    decreases fuel, ss.len() - i,
{
    if 0 <= i < ss.len() {
        let s = ss[i];
        let st1 = if st.color[s as int] == 1 {
            record_back_edge(st, s)
        } else if st.color[s as int] == 0 {
            lemma_dfs_reached(m, s as int, st, fuel);
            dfs_spec(m, s as int, st, fuel)
        } else {
            st
        };
        lemma_succs_reached(m, ss, i + 1, st1, fuel);
        lemma_reached_trans(st.color, st1.color, dfs_succs(m, ss, i + 1, st1, fuel).color);
    }
}

/// The successors of a block's terminator are blocks of the module.
proof fn lemma_terminator_succs(m: &Module, b: int)
    requires
        m.wf(),
        0 <= b < m.blocks@.len(),
        m.terminator(b) is Some,
    ensures
        all_below(m.successors(m.terminator(b).unwrap() as int), m.nblocks()),
{
    assert(m.block_wf(b));
    let t = m.terminator(b).unwrap() as int;
    assert(m.value_wf(t));
}

/// The search from `b` never runs out of fuel: with more fuel than blocks
/// left unreached once `b` is reached, any more fuel gives the same result.
pub proof fn lemma_dfs_fuel(m: &Module, b: int, st: DfsState, fuel: nat, fuel2: nat)
    requires
        m.wf(),
        0 <= b < m.blocks@.len(),
        st.color.len() == m.blocks@.len(),
        fuel >= whites(st.color.update(b, 1)) + 1,
        fuel2 >= fuel,
    ensures
        dfs_spec(m, b, st, fuel) == dfs_spec(m, b, st, fuel2),
    decreases fuel, 0int,
{
    let st1 = DfsState { color: st.color.update(b, 1), stack: st.stack.push(b as usize), loops: st.loops };
    match m.terminator(b) {
        Some(t) => {
            lemma_terminator_succs(m, b);
            lemma_succs_fuel(m, m.successors(t as int), 0, st1, (fuel - 1) as nat, (fuel2 - 1) as nat);
        },
        None => {},
    }
}

proof fn lemma_succs_fuel(m: &Module, ss: Seq<usize>, i: int, st: DfsState, fuel: nat, fuel2: nat)
    requires
        m.wf(),
        all_below(ss, m.nblocks()),
        st.color.len() == m.blocks@.len(),
        fuel >= whites(st.color),
        fuel2 >= fuel,
    ensures
        dfs_succs(m, ss, i, st, fuel) == dfs_succs(m, ss, i, st, fuel2),
    decreases fuel, ss.len() - i,
{
    if 0 <= i < ss.len() {
        let s = ss[i];
        if st.color[s as int] == 1 {
            let st1 = record_back_edge(st, s);
            lemma_succs_fuel(m, ss, i + 1, st1, fuel, fuel2);
        } else if st.color[s as int] == 0 {
            lemma_whites_update(st.color, s as int, 1);
            lemma_dfs_fuel(m, s as int, st, fuel, fuel2);
            lemma_dfs_reached(m, s as int, st, fuel);
            let st1 = dfs_spec(m, s as int, st, fuel);
            lemma_whites_mono(st.color, st1.color);
            lemma_succs_fuel(m, ss, i + 1, st1, fuel, fuel2);
        } else {
            lemma_succs_fuel(m, ss, i + 1, st, fuel, fuel2);
        }
    }
}

/// The fuel that `dfs` gives the search, one per block, is enough: any more
/// gives the same result.
pub proof fn lemma_dfs_enough_fuel(m: &Module, b: int, st: DfsState, fuel2: nat)
    requires
        m.wf(),
        0 <= b < m.blocks@.len(),
        st.color.len() == m.blocks@.len(),
        fuel2 >= m.blocks@.len(),
    ensures
        dfs_spec(m, b, st, m.blocks@.len() as nat) == dfs_spec(m, b, st, fuel2),
{
    lemma_whites_bound_update(st.color, b);
    lemma_dfs_fuel(m, b, st, m.blocks@.len() as nat, fuel2);
}

/// Block `s` is a successor of block `b` (through `b`'s terminator).
pub open spec fn is_succ(m: &Module, b: int, s: int) -> bool {
    m.terminator(b) matches Some(t) && m.successors(t as int).contains(s as usize)
}

/// Block `h` is on the stack.
pub open spec fn on_stack(stack: Seq<usize>, h: int) -> bool {
    exists|j: int| 0 <= j < stack.len() && #[trigger] stack[j] as int == h
}

/// The blocks on the search stack are exactly the blocks coloured 1.
pub open spec fn gray_is_stack(st: DfsState) -> bool {
    forall|h: int| 0 <= h < st.color.len() ==> (#[trigger] st.color[h] == 1 <==> on_stack(st.stack, h))
}

/// Every successor of a finished block (colour neither 0 nor 1) is reached.
pub open spec fn finished_closed(m: &Module, st: DfsState) -> bool {
    forall|h: int, s: int|
        0 <= h < st.color.len() && 0 <= s < st.color.len() && st.color[h] != 0 && st.color[h] != 1 && #[trigger] is_succ(m, h, s)
            ==> st.color[s] != 0
}

/// Every successor of a block that was unreached in `c0` and is now finished
/// is reached.
pub open spec fn finished_since(m: &Module, c0: Seq<u8>, st: DfsState) -> bool {
    forall|h: int, s: int|
        0 <= h < st.color.len() && 0 <= s < st.color.len() && c0[h] == 0 && st.color[h] != 0 && st.color[h] != 1
            && #[trigger] is_succ(m, h, s) ==> st.color[s] != 0
}

/// Colours only move from 0 to 1 or 2; a block once reached keeps its colour.
pub open spec fn colors_kept(c: Seq<u8>, c2: Seq<u8>) -> bool {
    c2.len() == c.len() && forall|h: int|
        0 <= h < c.len() ==> (#[trigger] c2[h] == c[h] || (c[h] == 0 && (c2[h] == 1 || c2[h] == 2)))
}

/// `h` is reached from `b` in at most `k` successor steps through blocks
/// coloured 0 in `c`.
pub open spec fn white_path(m: &Module, c: Seq<u8>, b: int, h: int, k: nat) -> bool
    decreases k,
{
    b == h || (k > 0 && exists|s: int|
        #[trigger] is_succ(m, b, s) && 0 <= s < c.len() && c[s] == 0 && white_path(m, c, s, h, (k - 1) as nat))
}

proof fn lemma_kept_trans(a: Seq<u8>, b: Seq<u8>, c: Seq<u8>)
    requires
        colors_kept(a, b),
        colors_kept(b, c),
    ensures
        colors_kept(a, c),
{
    assert forall|h: int| 0 <= h < a.len() implies (#[trigger] c[h] == a[h] || (a[h] == 0 && (c[h] == 1 || c[h] == 2))) by {
        assert(b[h] == a[h] || (a[h] == 0 && (b[h] == 1 || b[h] == 2)));
        assert(c[h] == b[h] || (b[h] == 0 && (c[h] == 1 || c[h] == 2)));
    }
}

proof fn lemma_kept_reached(a: Seq<u8>, b: Seq<u8>)
    requires
        colors_kept(a, b),
    ensures
        reached_stays(a, b),
{
    assert forall|h: int| 0 <= h < a.len() && #[trigger] a[h] != 0 implies b[h] != 0 by {
        assert(b[h] == a[h] || (a[h] == 0 && (b[h] == 1 || b[h] == 2)));
    }
}

proof fn lemma_dfs_colors(m: &Module, c0: Seq<u8>, bu: usize, st: DfsState, fuel: nat)
    requires
        m.wf(),
        bu < m.blocks@.len(),
        st.color.len() == m.blocks@.len(),
        st.color[bu as int] == 0,
        fuel >= whites(st.color),
        gray_is_stack(st),
        colors_kept(c0, st.color),
        finished_since(m, c0, st),
    ensures
        ({
            let r = dfs_spec(m, bu as int, st, fuel);
            &&& gray_is_stack(r)
            &&& finished_since(m, c0, r)
            &&& colors_kept(st.color, r.color)
            &&& r.color[bu as int] == 2
        }),
    decreases fuel, 0int,
{
    let b = bu as int;
    let c = st.color;
    lemma_whites_update(c, b, 1);
    assert(fuel > 0);
    let st1 = DfsState { color: c.update(b, 1), stack: st.stack.push(b as usize), loops: st.loops };
    assert(!on_stack(st.stack, b)) by {
        assert(st.color[b] != 1);
    }
    assert(gray_is_stack(st1)) by {
        assert forall|h: int| 0 <= h < st1.color.len() implies (#[trigger] st1.color[h] == 1 <==> on_stack(st1.stack, h)) by {
            assert(st.color[h] == 1 <==> on_stack(st.stack, h));
            if h != b {
                if on_stack(st1.stack, h) {
                    let j = choose|j: int| 0 <= j < st1.stack.len() && st1.stack[j] as int == h;
                    if j < st.stack.len() {
                        assert(st.stack[j] as int == h);
                    }
                }
                if on_stack(st.stack, h) {
                    let j = choose|j: int| 0 <= j < st.stack.len() && st.stack[j] as int == h;
                    assert(st1.stack[j] as int == h);
                }
            } else {
                assert(st1.stack[st.stack.len() as int] as int == b);
            }
        }
    }
    assert(finished_since(m, c0, st1)) by {
        assert forall|h: int, s: int|
            0 <= h < st1.color.len() && 0 <= s < st1.color.len() && c0[h] == 0 && st1.color[h] != 0 && st1.color[h] != 1
                && #[trigger] is_succ(m, h, s) implies st1.color[s] != 0 by {
            assert(st.color[h] != 0 && st.color[h] != 1);
            assert(st.color[s] != 0);
            if s == b {
            }
        }
    }
    assert(colors_kept(c, st1.color));
    lemma_kept_trans(c0, c, st1.color);
    let f1 = (fuel - 1) as nat;
    let st2 = match m.terminator(b) {
        Some(t) => {
            lemma_terminator_succs(m, b);
            lemma_succs_colors(m, c0, m.successors(t as int), 0, st1, f1);
            lemma_succs_stack(m, m.successors(t as int), 0, st1, f1);
            dfs_succs(m, m.successors(t as int), 0, st1, f1)
        },
        None => st1,
    };
    assert(st2.stack == st1.stack);
    assert(colors_kept(st1.color, st2.color));
    assert(st2.color[b] == 1) by {
        assert(st2.color[b] == st1.color[b] || (st1.color[b] == 0 && (st2.color[b] == 1 || st2.color[b] == 2)));
    }
    let r = DfsState { color: st2.color.update(b, 2), stack: st2.stack.drop_last(), loops: st2.loops };
    assert(r == dfs_spec(m, b, st, fuel));
    assert(st1.stack.drop_last() =~= st.stack);
    assert(gray_is_stack(r)) by {
        assert forall|h: int| 0 <= h < r.color.len() implies (#[trigger] r.color[h] == 1 <==> on_stack(r.stack, h)) by {
            assert(st2.color[h] == 1 <==> on_stack(st1.stack, h));
            if h != b {
                if on_stack(st1.stack, h) {
                    let j = choose|j: int| 0 <= j < st1.stack.len() && st1.stack[j] as int == h;
                    if j < st.stack.len() {
                        assert(st.stack[j] as int == h);
                    } else {
                        assert(st1.stack[st.stack.len() as int] as int == b);
                    }
                }
                if on_stack(st.stack, h) {
                    let j = choose|j: int| 0 <= j < st.stack.len() && st.stack[j] as int == h;
                    assert(st1.stack[j] as int == h);
                }
            }
        }
    }
    assert(finished_since(m, c0, r)) by {
        assert forall|h: int, s: int|
            0 <= h < r.color.len() && 0 <= s < r.color.len() && c0[h] == 0 && r.color[h] != 0 && r.color[h] != 1
                && #[trigger] is_succ(m, h, s) implies r.color[s] != 0 by {
            if h == b {
                let t = m.terminator(b).unwrap();
                let ss = m.successors(t as int);
                let j = choose|j: int| 0 <= j < ss.len() && ss[j] == s as usize;
                assert(st2.color[ss[j] as int] != 0);
            } else {
                assert(st2.color[s] != 0);
            }
        }
    }
    lemma_kept_trans(c, st1.color, st2.color);
    assert(colors_kept(c, r.color)) by {
        assert forall|h: int| 0 <= h < c.len() implies (#[trigger] r.color[h] == c[h] || (c[h] == 0 && (r.color[h] == 1 || r.color[h] == 2))) by {
            assert(st2.color[h] == c[h] || (c[h] == 0 && (st2.color[h] == 1 || st2.color[h] == 2)));
        }
    }
}

proof fn lemma_succs_colors(m: &Module, c0: Seq<u8>, ss: Seq<usize>, i: int, st: DfsState, fuel: nat)
    requires
        m.wf(),
        0 <= i,
        all_below(ss, m.nblocks()),
        st.color.len() == m.blocks@.len(),
        fuel >= whites(st.color),
        gray_is_stack(st),
        colors_kept(c0, st.color),
        finished_since(m, c0, st),
    ensures
        ({
            let r = dfs_succs(m, ss, i, st, fuel);
            &&& gray_is_stack(r)
            &&& finished_since(m, c0, r)
            &&& colors_kept(st.color, r.color)
            &&& forall|j: int| i <= j < ss.len() ==> r.color[#[trigger] ss[j] as int] != 0
        }),
    decreases fuel, ss.len() - i,
{
    if i < ss.len() {
        let s = ss[i];
        let st1 = if st.color[s as int] == 1 {
            record_back_edge(st, s)
        } else if st.color[s as int] == 0 {
            lemma_dfs_colors(m, c0, s, st, fuel);
            lemma_dfs_stack(m, s as int, st, fuel);
            dfs_spec(m, s as int, st, fuel)
        } else {
            st
        };
        assert(colors_kept(st.color, st1.color));
        lemma_kept_trans(c0, st.color, st1.color);
        assert(gray_is_stack(st1));
        assert(finished_since(m, c0, st1));
        assert(st1.color[s as int] != 0);
        lemma_kept_reached(st.color, st1.color);
        lemma_whites_mono(st.color, st1.color);
        lemma_succs_colors(m, c0, ss, i + 1, st1, fuel);
        let r = dfs_succs(m, ss, i + 1, st1, fuel);
        lemma_kept_trans(st.color, st1.color, r.color);
        assert forall|j: int| i <= j < ss.len() implies r.color[#[trigger] ss[j] as int] != 0 by {
            if j == i {
                lemma_kept_reached(st1.color, r.color);
                assert(st1.color[ss[j] as int] != 0);
            }
        }
    } else {
        assert(colors_kept(st.color, st.color));
    }
}

proof fn lemma_white_path_finished(m: &Module, c0: Seq<u8>, st: DfsState, x: int, h: int, k: nat)
    requires
        colors_kept(c0, st.color),
        finished_since(m, c0, st),
        forall|y: int| 0 <= y < c0.len() ==> (#[trigger] st.color[y] == 1 <==> c0[y] == 1),
        0 <= x < c0.len(),
        c0[x] == 0,
        st.color[x] == 2,
        white_path(m, c0, x, h, k),
    ensures
        st.color[h] == 2,
    decreases k,
{
    if x != h {
        let s = choose|s: int|
            #[trigger] is_succ(m, x, s) && 0 <= s < c0.len() && c0[s] == 0 && white_path(m, c0, s, h, (k - 1) as nat);
        assert(st.color[s] != 0);
        assert(st.color[s] != 1);
        assert(st.color[s] == c0[s] || (c0[s] == 0 && (st.color[s] == 1 || st.color[s] == 2)));
        lemma_white_path_finished(m, c0, st, s, h, (k - 1) as nat);
    }
}

/// The search that `dfs` makes from an unreached block `b`, begun in a state
/// whose stack holds exactly the blocks coloured 1, ends in such a state
/// again: the stack is as it was, every block reached before keeps its colour,
/// `b` is finished (colour 2), every block it finished has all its successors
/// reached, and every block reachable from `b` through blocks that were
/// unreached when the search began is finished. If every finished block had
/// its successors reached before the search, that still holds after it.
pub proof fn lemma_dfs_coloring(m: &Module, b: usize, st: DfsState)
    requires
        m.wf(),
        b < m.blocks@.len(),
        st.color.len() == m.blocks@.len(),
        st.color[b as int] == 0,
        gray_is_stack(st),
    ensures
        ({
            let r = dfs_spec(m, b as int, st, m.blocks@.len() as nat);
            &&& r.stack == st.stack
            &&& gray_is_stack(r)
            &&& finished_since(m, st.color, r)
            &&& (finished_closed(m, st) ==> finished_closed(m, r))
            &&& colors_kept(st.color, r.color)
            &&& r.color[b as int] == 2
            &&& forall|h: int, k: nat| #[trigger] white_path(m, st.color, b as int, h, k) ==> r.color[h] == 2
        }),
{
    let n = m.blocks@.len() as nat;
    let c0 = st.color;
    lemma_whites_bound(c0);
    assert(colors_kept(c0, c0));
    lemma_dfs_colors(m, c0, b, st, n);
    lemma_dfs_stack(m, b as int, st, n);
    let r = dfs_spec(m, b as int, st, n);
    assert forall|y: int| 0 <= y < c0.len() implies (#[trigger] r.color[y] == 1 <==> c0[y] == 1) by {
        assert(r.color[y] == 1 <==> on_stack(r.stack, y));
        assert(c0[y] == 1 <==> on_stack(st.stack, y));
    }
    assert forall|h: int, k: nat| #[trigger] white_path(m, c0, b as int, h, k) implies r.color[h] == 2 by {
        lemma_white_path_finished(m, c0, r, b as int, h, k);
    }
    if finished_closed(m, st) {
        assert forall|h: int, s: int|
            0 <= h < r.color.len() && 0 <= s < r.color.len() && r.color[h] != 0 && r.color[h] != 1
                && #[trigger] is_succ(m, h, s) implies r.color[s] != 0 by {
            assert(r.color[h] == c0[h] || (c0[h] == 0 && (r.color[h] == 1 || r.color[h] == 2)));
            assert(r.color[s] == c0[s] || (c0[s] == 0 && (r.color[s] == 1 || r.color[s] == 2)));
            if c0[h] != 0 {
                assert(c0[h] != 1);
                assert(c0[s] != 0);
            }
        }
    }
}

/// A recorded loop is a back edge: its body starts at its header, and the
/// header is a successor of the body's last block.
pub open spec fn back_edge_loop(m: &Module, l: (usize, Seq<usize>)) -> bool {
    l.1.len() > 0 && l.1[0] == l.0 && is_succ(m, l.1.last() as int, l.0 as int)
}

/// The loops of `st2` extend those of `st`, and every loop added is a back edge.
pub open spec fn loops_extended(m: &Module, st: DfsState, st2: DfsState) -> bool {
    &&& st.loops.len() <= st2.loops.len()
    &&& forall|k: int| 0 <= k < st.loops.len() ==> #[trigger] st2.loops[k] == st.loops[k]
    &&& forall|k: int| st.loops.len() <= k < st2.loops.len() ==> back_edge_loop(m, #[trigger] st2.loops[k])
}

proof fn lemma_extended_trans(m: &Module, a: DfsState, b: DfsState, c: DfsState)
    requires
        loops_extended(m, a, b),
        loops_extended(m, b, c),
    ensures
        loops_extended(m, a, c),
{
    assert forall|k: int| a.loops.len() <= k < c.loops.len() implies back_edge_loop(m, #[trigger] c.loops[k]) by {
        if k < b.loops.len() {
            assert(c.loops[k] == b.loops[k]);
        }
    }
}

/// Every loop the search from `b` records is a back edge, and the loops
/// recorded before are kept.
pub proof fn lemma_dfs_back_edges(m: &Module, bu: usize, st: DfsState, fuel: nat)
    ensures
        loops_extended(m, st, dfs_spec(m, bu as int, st, fuel)),
    decreases fuel, 0int,
{
    let b = bu as int;
    if fuel > 0 {
        let st1 = DfsState { color: st.color.update(b, 1), stack: st.stack.push(b as usize), loops: st.loops };
        match m.terminator(b) {
            Some(t) => {
                let ss = m.successors(t as int);
                assert forall|j: int| 0 <= j < ss.len() implies is_succ(m, st1.stack.last() as int, #[trigger] ss[j] as int)
                    by {
                    assert(st1.stack.last() == b as usize);
                    assert(ss.contains(ss[j]));
                }
                lemma_succs_back_edges(m, ss, 0, st1, (fuel - 1) as nat);
            },
            None => {},
        }
    }
}

proof fn lemma_succs_back_edges(m: &Module, ss: Seq<usize>, i: int, st: DfsState, fuel: nat)
    requires
        st.stack.len() > 0,
        forall|j: int| 0 <= j < ss.len() ==> is_succ(m, st.stack.last() as int, #[trigger] ss[j] as int),
    ensures
        loops_extended(m, st, dfs_succs(m, ss, i, st, fuel)),
    decreases fuel, ss.len() - i,
{
    if 0 <= i < ss.len() {
        let s = ss[i];
        let st1 = if st.color[s as int] == 1 {
            match stack_position(st.stack, s) {
                Some(pos) => {
                    lemma_first_index_some(st.stack.len() as int, is_at(st.stack, s));
                    let body = st.stack.subrange(pos, st.stack.len() as int);
                    assert(body[0] == s);
                    assert(body.last() == st.stack.last());
                    assert(is_succ(m, st.stack.last() as int, ss[i] as int));
                    assert(back_edge_loop(m, record_back_edge(st, s).loops[st.loops.len() as int]));
                },
                None => {},
            }
            record_back_edge(st, s)
        } else if st.color[s as int] == 0 {
            lemma_dfs_back_edges(m, s, st, fuel);
            lemma_dfs_stack(m, s as int, st, fuel);
            dfs_spec(m, s as int, st, fuel)
        } else {
            st
        };
        assert(st1.stack == st.stack);
        assert(loops_extended(m, st, st1));
        lemma_succs_back_edges(m, ss, i + 1, st1, fuel);
        lemma_extended_trans(m, st, st1, dfs_succs(m, ss, i + 1, st1, fuel));
    }
}

proof fn lemma_whites_bound_update(c: Seq<u8>, b: int)
    requires
        0 <= b < c.len(),
    ensures
        whites(c.update(b, 1)) + 1 <= c.len(),
    decreases c.len(),
{
    let u = c.update(b, 1);
    if b == c.len() - 1 {
        assert(u.drop_last() =~= c.drop_last());
        lemma_whites_bound(c.drop_last());
    } else {
        lemma_whites_bound_update(c.drop_last(), b);
        assert(u.drop_last() =~= c.drop_last().update(b, 1));
    }
}

proof fn lemma_whites_bound(c: Seq<u8>)
    ensures
        whites(c) <= c.len(),
    decreases c.len(),
{
    if c.len() > 0 {
        lemma_whites_bound(c.drop_last());
    }
}

fn stack_position_exec(stack: &Vec<usize>, b: usize) -> (r: Option<usize>)
    ensures
        r matches Some(p) ==> stack_position(stack@, b) == Some(p as int) && p < stack@.len(),
        r is None ==> stack_position(stack@, b) is None,
{
    let ghost p = is_at(stack@, b);
    let n = stack.len();
    for k in 0..n
        invariant
            n == stack@.len(),
            p == is_at(stack@, b),
            forall|j: int| 0 <= j < k ==> !#[trigger] p(j),
    {
        if stack[k] == b {
            proof {
                lemma_first_index(n as int, p, k as int);
            }
            return Some(k);
        }
    }
    proof {
        lemma_first_index_none(n as int, p);
    }
    None
}

fn copy_from(stack: &Vec<usize>, pos: usize) -> (r: Vec<usize>)
    requires
        pos <= stack@.len(),
    ensures
        r@ == stack@.subrange(pos as int, stack@.len() as int),
{
    let mut r: Vec<usize> = Vec::new();
    let n = stack.len();
    for k in pos..n
        invariant
            n == stack@.len(),
            pos <= k,
            r@ == stack@.subrange(pos as int, k as int),
    {
        r.push(stack[k]);
        assert(stack@.subrange(pos as int, k + 1) == stack@.subrange(pos as int, k as int).push(stack@[k as int]));
    }
    r
}

impl LoopDetector {
    fn dfs_rec(&mut self, m: &Module, bb: usize, fuel: usize)
        requires
            m.wf(),
            bb < m.blocks@.len(),
            detector_ok(m, old(self)),
        ensures
            final(self).state() == dfs_spec(m, bb as int, old(self).state(), fuel as nat),
            detector_ok(m, final(self)),
        decreases fuel, 0int,
    {
        if fuel == 0 {
            return;
        }
        let ghost st0 = self.state();
        self.color.set(bb, 1);
        self.stack.push(bb);
        let ghost st1 = self.state();
        assert(st1 == DfsState { color: st0.color.update(bb as int, 1), stack: st0.stack.push(bb), loops: st0.loops });
        match BasicBlockRef(bb).terminator(m) {
            Some(t) => {
                self.dfs_succs_exec(m, t.0, fuel - 1);
            },
            None => {},
        }
        let ghost st2 = self.state();
        proof {
            match m.terminator(bb as int) {
                Some(t) => {
                    lemma_succs_stack(m, m.successors(t as int), 0, st1, (fuel - 1) as nat);
                },
                None => {},
            }
        }
        assert(st2.stack == st1.stack);
        self.color.set(bb, 2);
        self.stack.pop();
        assert(self.state() =~= DfsState { color: st2.color.update(bb as int, 2), stack: st2.stack.drop_last(), loops: st2.loops });
    }

    fn dfs_succs_exec(&mut self, m: &Module, t: usize, fuel: usize)
        requires
            m.wf(),
            t < m.values@.len(),
            detector_ok(m, old(self)),
        ensures
            final(self).state() == dfs_succs(m, m.successors(t as int), 0, old(self).state(), fuel as nat),
            detector_ok(m, final(self)),
        decreases fuel, 1int,
    {
        let ti = InstructionRef(t);
        let n = ti.num_successors(m);
        let ghost ss = m.successors(t as int);
        let mut i: usize = 0;
        while i < n
            invariant
                m.wf(),
                t < m.values@.len(),
                ti.0 == t,
                n == ss.len(),
                ss == m.successors(t as int),
                i <= n,
                detector_ok(m, self),
                dfs_succs(m, ss, i as int, self.state(), fuel as nat) == dfs_succs(m, ss, 0, old(self).state(), fuel as nat),
            decreases n - i,
        {
            let s = ti.get_successor(m, i);
            let ghost st = self.state();
            let ghost old_loops = self.loops@;
            let c = self.color[s];
            if c == 1 {
                match stack_position_exec(&self.stack, s) {
                    Some(pos) => {
                        let body = copy_from(&self.stack, pos);
                        assert forall|j: int| 0 <= j < body@.len() implies #[trigger] body@[j] < m.blocks@.len() by {
                            assert(body@[j] == self.stack@[pos + j]);
                        }
                        self.loops.push(LoopInfo { header: s, body });
                        assert(self.state().loops =~= st.loops.push((s, st.stack.subrange(pos as int, st.stack.len() as int))));
                        assert(forall|k: int| 0 <= k < self.loops@.len() - 1 ==> #[trigger] self.loops@[k] == old_loops[k]);
                        assert(self.state() =~= record_back_edge(st, s));
                    },
                    None => {},
                }
            } else if c == 0 {
                self.dfs_rec(m, s, fuel);
            }
            i += 1;
        }
    }

    /// Searches from block `bb`, recording every back edge found as a loop.
    /// The search goes at most as deep as the module has blocks.
    pub fn dfs(&mut self, m: &Module, bb: usize)
        requires
            m.wf(),
            bb < m.blocks@.len(),
            detector_ok(m, old(self)),
        ensures
            final(self).state() == dfs_spec(m, bb as int, old(self).state(), m.blocks@.len() as nat),
            detector_ok(m, final(self)),
    {
        self.dfs_rec(m, bb, m.blocks.len());
    }
}

/// The search state before any block is reached.
pub open spec fn fresh_state(m: &Module) -> DfsState {
    DfsState { color: Seq::new(m.blocks@.len(), |k: int| 0u8), stack: Seq::empty(), loops: Seq::empty() }
}

/// The loops found by the search from the entry block of `f`.
pub open spec fn loops_of(m: &Module, f: int) -> Seq<(usize, Seq<usize>)> {
    dfs_spec(m, m.functions[f].blocks@[0] as int, fresh_state(m), m.blocks@.len() as nat).loops
}

/// Where a loop with header `h` is reported: the first instruction of `h`
/// with a debug location outside library code.
pub open spec fn header_loc(m: &Module, h: int) -> Option<usize> {
    let is = m.blocks[h].insts@;
    match first_index(is.len() as int, |k: int| user_loc(m, is[k] as int)) {
        Some(k) => Some(is[k]),
        None => None,
    }
}

/// The line for loop `l` of function `f`: its header's location, when the
/// body counts more than `MIN_INST_NUM_FOR_LOOP` instructions (callees two
/// levels deep) and the location names a file.
pub open spec fn loop_line(m: &Module, f: int, l: (usize, Seq<usize>)) -> Seq<Seq<char>> {
    let count = cap(body_count(m, l.1, l.1.len() as int, Seq::new(m.functions@.len(), |k: int| false)).0 as int);
    if count > MIN_INST_NUM_FOR_LOOP {
        match header_loc(m, l.0 as int) {
            Some(v) => {
                let d = m.debug_loc(v as int).unwrap();
                if d.filename@.len() > 0 {
                    seq![loc_line(m.function_name(f), d.filename@, d.line as nat)]
                } else {
                    Seq::empty()
                }
            },
            None => Seq::empty(),
        }
    } else {
        Seq::empty()
    }
}

/// The lines recorded for function `f`, one per complex loop, in the order
/// the search found them.
pub open spec fn complex_loop_fn(m: &Module, f: int) -> Seq<Seq<char>> {
    if is_lib_name(m, f) || m.functions[f].blocks@.len() == 0 {
        Seq::empty()
    } else {
        let ls = loops_of(m, f);
        concat_upto(ls.len() as int, |k: int| loop_line(m, f, ls[k]))
    }
}

fn header_loc_exec(m: &Module, h: usize) -> (r: Option<DebugLoc>)
    requires
        m.wf(),
        h < m.blocks@.len(),
    ensures
        match header_loc(m, h as int) {
            Some(v) => r matches Some(d) && m.debug_loc(v as int) matches Some(k) && d.filename@ == k.filename@
                && d.line == k.line,
            None => r is None,
        },
{
    assert(m.block_wf(h as int));
    let insts = raw_bb_instructions(m, h);
    let ghost is = m.blocks@[h as int].insts@;
    let ghost p = |k: int| user_loc(m, is[k] as int);
    let n = insts.len();
    for k in 0..n
        invariant
            m.wf(),
            h < m.blocks@.len(),
            n == is.len(),
            n == insts@.len(),
            is == m.blocks@[h as int].insts@,
            forall|j: int| 0 <= j < n ==> (#[trigger] insts@[j]).0 == is[j],
            forall|j: int| 0 <= j < n ==> #[trigger] is[j] < m.values@.len(),
            p == (|k: int| user_loc(m, is[k] as int)),
            forall|j: int| 0 <= j < k ==> !#[trigger] p(j),
    {
        let inst = &insts[k];
        assert(inst.0 == is[k as int]);
        if has_user_loc(m, inst) {
            proof {
                lemma_first_index(n as int, p, k as int);
            }
            return inst.debug_loc(m);
        }
    }
    proof {
        lemma_first_index_none(n as int, p);
    }
    None
}

fn loop_line_exec(m: &Module, f: usize, l: &LoopInfo, w: &mut TmpWriter)
    requires
        m.wf(),
        f < m.functions@.len(),
        l.header < m.blocks@.len(),
        forall|j: int| 0 <= j < l.body@.len() ==> #[trigger] l.body@[j] < m.blocks@.len(),
    ensures
        final(w).lines_view() == old(w).lines_view() + loop_line(m, f as int, (l.header, l.body@)),
        final(w).detector == old(w).detector,
{
    let mut visited = no_functions(m);
    let count = count_loop_instructions(m, &l.body, &mut visited);
    assert(old(w).lines_view() + Seq::<Seq<char>>::empty() =~= old(w).lines_view());
    if count > MIN_INST_NUM_FOR_LOOP {
        match header_loc_exec(m, l.header) {
            Some(d) => {
                if !d.filename.as_str().is_empty() {
                    let func = FunctionRef(f);
                    w.write(func.name(m), d.filename.as_str(), d.line);
                    assert(old(w).lines_view().push(loc_line(m.function_name(f as int), d.filename@, d.line as nat))
                        =~= old(w).lines_view() + seq![loc_line(m.function_name(f as int), d.filename@, d.line as nat)]);
                }
            },
            None => {},
        }
    }
}

fn complex_loop_in(m: &Module, f: usize, w: &mut TmpWriter)
    requires
        m.wf(),
        f < m.functions@.len(),
    ensures
        final(w).lines_view() == old(w).lines_view() + complex_loop_fn(m, f as int),
        final(w).detector == old(w).detector,
{
    let func = FunctionRef(f);
    assert(old(w).lines_view() + Seq::<Seq<char>>::empty() =~= old(w).lines_view());
    if is_lib_func(func.name(m)) {
        return;
    }
    assert(m.function_wf(f as int));
    if m.functions[f].blocks.len() == 0 {
        return;
    }
    let entry = m.functions[f].blocks[0];
    let mut d = LoopDetector::new(m);
    assert(d.state().loops =~= Seq::<(usize, Seq<usize>)>::empty());
    assert(d.state() == fresh_state(m));
    d.dfs(m, entry);
    let ghost ls = loops_of(m, f as int);
    assert(d.state().loops == ls);
    let ghost per = |k: int| loop_line(m, f as int, ls[k]);
    let n = d.loops.len();
    for k in 0..n
        invariant
            m.wf(),
            f < m.functions@.len(),
            n == d.loops@.len(),
            n == ls.len(),
            detector_ok(m, &d),
            forall|j: int| 0 <= j < n ==> (#[trigger] ls[j]) == (d.loops@[j].header, d.loops@[j].body@),
            per == (|k: int| loop_line(m, f as int, ls[k])),
            w.lines_view() == old(w).lines_view() + concat_upto(k as int, per),
            w.detector == old(w).detector,
    {
        assert(ls[k as int] == (d.loops@[k as int].header, d.loops@[k as int].body@));
        loop_line_exec(m, f, &d.loops[k], w);
        proof {
            lemma_concat_upto_step(old(w).lines_view(), k as int, per);
        }
    }
}

/// Records, for every loop of every non-library function whose weighted
/// instruction count exceeds `MIN_INST_NUM_FOR_LOOP`, the location of its
/// header.
pub fn complex_loop(m: &Module, w: &mut TmpWriter)
    requires
        m.wf(),
    ensures
        final(w).lines_view() == old(w).lines_view() + module_lines(m, |f: int| complex_loop_fn(m, f)),
        final(w).detector == old(w).detector,
{
    let ghost per = |f: int| complex_loop_fn(m, f);
    let n = m.functions.len();
    for k in 0..n
        invariant
            m.wf(),
            n == m.functions@.len(),
            per == (|f: int| complex_loop_fn(m, f)),
            w.lines_view() == old(w).lines_view() + concat_upto(k as int, per),
            w.detector == old(w).detector,
    {
        complex_loop_in(m, k, w);
        proof {
            lemma_concat_upto_step(old(w).lines_view(), k as int, per);
        }
    }
}

/// The number of instructions among `is[i..]` that are not calls.
pub open spec fn plain_from(m: &Module, is: Seq<usize>, i: int) -> nat
    decreases is.len() - i,
{
    if i < 0 || i >= is.len() {
        0
    } else {
        (if m.is_call(is[i] as int) { 0nat } else { 1nat }) + plain_from(m, is, i + 1)
    }
}

proof fn lemma_count_insts_plain(m: &Module, is: Seq<usize>, i: int, d: nat, vis: Seq<bool>)
    ensures
        count_insts(m, is, i, d, vis).0 >= plain_from(m, is, i),
    decreases is.len() - i,
{
    if 0 <= i < is.len() {
        let v = is[i] as int;
        let vis1 = if m.is_call(v) {
            match m.called_function(v) {
                Some(g) => count_rec(m, g as int, d, vis).1,
                None => vis,
            }
        } else {
            vis
        };
        lemma_count_insts_plain(m, is, i + 1, d, vis1);
    }
}

proof fn lemma_count_prefix(m: &Module, is: Seq<usize>, k: int, i: int, d: nat, vis: Seq<bool>)
    requires
        0 <= k <= i < is.len(),
        forall|j: int| 0 <= j < i ==> !m.is_call(#[trigger] is[j] as int),
    ensures
        count_insts(m, is, k, d, vis) == ((i - k) as nat + count_insts(m, is, i, d, vis).0, count_insts(m, is, i, d, vis).1),
    decreases i - k,
{
    if k < i {
        assert(!m.is_call(is[k] as int));
        lemma_count_prefix(m, is, k + 1, i, d, vis);
    }
}

proof fn lemma_body_count_first(m: &Module, body: Seq<usize>, n: int, vis: Seq<bool>)
    requires
        1 <= n,
    ensures
        body_count(m, body, n, vis).0 >= count_insts(m, m.blocks[body[0] as int].insts@, 0, 2, vis).0,
    decreases n,
{
    assert(body_count(m, body, 0, vis) == (0nat, vis));
    if n > 1 {
        lemma_body_count_first(m, body, n - 1, vis);
        let (a, vis1) = body_count(m, body, n - 1, vis);
        let (b, vis2) = count_insts(m, m.blocks[body[n - 1] as int].insts@, 0, 2, vis1);
        assert(body_count(m, body, n, vis) == (a + b, vis2));
    } else {
        let (b, vis2) = count_insts(m, m.blocks[body[0] as int].insts@, 0, 2, vis);
        assert(body_count(m, body, 1, vis) == (0 + b, vis2));
    }
}

/// A call in a loop body counts the instructions of the called function,
/// callees two levels deep. When the body's first block starts with `i`
/// instructions that are not calls followed by a call to `g`, the body counts
/// at least those `i` and what `g` counts two levels deep; if `g` is not a
/// library function and not yet visited, that is at least the number of
/// instructions of `g` that are not calls.
pub proof fn lemma_loop_counts_callees(m: &Module, body: Seq<usize>, i: int, g: usize, vis: Seq<bool>)
    requires
        body.len() >= 1,
        0 <= i < m.blocks[body[0] as int].insts@.len(),
        forall|j: int| 0 <= j < i ==> !m.is_call(#[trigger] m.blocks[body[0] as int].insts@[j] as int),
        m.is_call(m.blocks[body[0] as int].insts@[i] as int),
        m.called_function(m.blocks[body[0] as int].insts@[i] as int) == Some(g),
    ensures
        body_count(m, body, body.len() as int, vis).0 >= i + count_rec(m, g as int, 2, vis).0,
        !is_lib_name(m, g as int) && !vis[g as int] ==> body_count(m, body, body.len() as int, vis).0
            >= i + plain_from(m, fn_insts(m, g as int), 0),
{
    let is = m.blocks[body[0] as int].insts@;
    lemma_body_count_first(m, body, body.len() as int, vis);
    lemma_count_prefix(m, is, 0, i, 2, vis);
    let (c, vis1) = count_rec(m, g as int, 2, vis);
    let (rest, vis2) = count_insts(m, is, i + 1, 2, vis1);
    assert(count_insts(m, is, i, 2, vis) == (c + rest, vis2));
    if !is_lib_name(m, g as int) && !vis[g as int] {
        lemma_count_insts_plain(m, fn_insts(m, g as int), 0, 1, vis.update(g as int, true));
    }
}

} // verus!
