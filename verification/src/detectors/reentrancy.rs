//! reentrancy: a state change (a store into a field of `self`) inside the
//! `PromiseResult::Successful` branch of a callback.
//!
//! Output lines: `funcname@filename@line` at the store.
use vstd::prelude::*;
use crate::ir::{BasicBlockRef, DebugLoc, FunctionRef, InstructionRef, Module, Opcode, ValueKind, all_below, all_instructions, fn_insts};
use crate::output::{TmpWriter, loc_line};
use crate::patterns::{is_lib_func, promise_result, pattern_matches};
use crate::callgraph::{has_user_loc, inst_calls, is_inst_call_func, user_loc};
use crate::users::{users_of, users_spec};
use crate::text::{starts_with, str_starts_with};
use super::common::{concat_upto, lemma_concat_upto_step, module_lines, is_lib_name, first_index, lemma_first_index,
    lemma_first_index_none};

verus! {

pub open spec fn bb_prefix() -> Seq<char> {
    seq!['b', 'b']
}

/// Some user of `ptr` is a `ret` instruction.
pub open spec fn used_in_return(m: &Module, ptr: int) -> bool {
    let us = users_spec(m, ptr, false, false);
    exists|r: int| 0 <= r < m.nvalues() && #[trigger] us[r] && m.has_opcode(r, Opcode::Ret)
}

/// `v` is a store into a value derived from `self` (marked in `su`), whose
/// location is not used in a return, at a non-library location.
pub open spec fn is_state_store(m: &Module, su: Seq<bool>, v: int) -> bool {
    m.has_opcode(v, Opcode::Store) && m.operands(v).len() > 1 && {
        let ptr = m.operands(v)[1] as int;
        !used_in_return(m, ptr) && su[ptr] && user_loc(m, v)
    }
}

/// The last `bb`-named successor among `succs[j..]`, or `acc` when none.
pub open spec fn next_bb_succs(m: &Module, succs: Seq<usize>, j: int, acc: Option<usize>) -> Option<usize>
    decreases succs.len() - j,
{
    if j < 0 || j >= succs.len() {
        acc
    } else {
        let acc1 = if starts_with(m.blocks[succs[j] as int].name@, bb_prefix()) {
            Some(succs[j])
        } else {
            acc
        };
        next_bb_succs(m, succs, j + 1, acc1)
    }
}

/// The block the walk goes on to from the instructions `is[i..]`: the last
/// `bb`-named successor of a branch among them, or `acc` when none.
pub open spec fn next_bb_insts(m: &Module, is: Seq<usize>, i: int, acc: Option<usize>) -> Option<usize>
    decreases is.len() - i,
{
    if i < 0 || i >= is.len() {
        acc
    } else {
        let v = is[i] as int;
        let acc1 = if m.has_opcode(v, Opcode::Br) {
            next_bb_succs(m, m.successors(v), 0, acc)
        } else {
            acc
        };
        next_bb_insts(m, is, i + 1, acc1)
    }
}

/// The first state store of block `b`.
pub open spec fn block_store(m: &Module, su: Seq<bool>, b: int) -> Option<usize> {
    let is = m.blocks[b].insts@;
    match first_index(is.len() as int, |k: int| is_state_store(m, su, is[k] as int)) {
        Some(k) => Some(is[k]),
        None => None,
    }
}

/// The walk from block `b`: the first state store found, following the
/// `bb`-named branch successors, for at most `fuel` blocks.
pub open spec fn store_walk(m: &Module, su: Seq<bool>, b: int, fuel: nat) -> Option<usize>
    decreases fuel,
{
    if fuel == 0 {
        None
    } else {
        match block_store(m, su, b) {
            Some(v) => Some(v),
            None => match next_bb_insts(m, m.blocks[b].insts@, 0, None) {
                Some(nb) => store_walk(m, su, nb as int, (fuel - 1) as nat),
                None => None,
            },
        }
    }
}

/// The values derived from the first parameter (`self`) of `f`.
pub open spec fn self_users(m: &Module, f: int) -> Seq<bool> {
    users_spec(m, m.functions[f].params@[0] as int, false, false)
}

/// The store the walk from `b` reports in function `f`.
pub open spec fn reentrant_store(m: &Module, f: int, b: int) -> Option<usize> {
    store_walk(m, self_users(m, f), b, m.nblocks() as nat)
}

/// The block the walk goes on to from block `b`, if any.
pub open spec fn next_of(m: &Module, b: int) -> Option<usize> {
    next_bb_insts(m, m.blocks[b].insts@, 0, None)
}

/// The walk neither stops at block `b` nor runs out of blocks there.
pub open spec fn continues(m: &Module, su: Seq<bool>, b: int) -> bool {
    block_store(m, su, b) is None && next_of(m, b) is Some
}

/// The block reached from `b` after `k` steps of the walk.
pub open spec fn walk_at(m: &Module, b: int, k: nat) -> int
    decreases k,
{
    if k == 0 {
        b
    } else {
        next_of(m, walk_at(m, b, (k - 1) as nat)).unwrap() as int
    }
}

/// The walk from `b` comes to its end (a store found, or no block to go on
/// to) within `fuel` blocks.
pub open spec fn walk_ends(m: &Module, su: Seq<bool>, b: int, fuel: nat) -> bool
    decreases fuel,
{
    fuel > 0 && (block_store(m, su, b) is Some || match next_of(m, b) {
        Some(nb) => walk_ends(m, su, nb as int, (fuel - 1) as nat),
        None => true,
    })
}

proof fn lemma_next_succs_valid(m: &Module, succs: Seq<usize>, j: int, acc: Option<usize>)
    requires
        all_below(succs, m.nblocks()),
        acc matches Some(x) ==> x < m.nblocks(),
    ensures
        next_bb_succs(m, succs, j, acc) matches Some(x) ==> x < m.nblocks(),
    decreases succs.len() - j,
{
    if 0 <= j < succs.len() {
        let acc1 = if starts_with(m.blocks[succs[j] as int].name@, bb_prefix()) { Some(succs[j]) } else { acc };
        lemma_next_succs_valid(m, succs, j + 1, acc1);
    }
}

proof fn lemma_next_insts_valid(m: &Module, is: Seq<usize>, i: int, acc: Option<usize>)
    requires
        m.wf(),
        all_below(is, m.nvalues()),
        acc matches Some(x) ==> x < m.nblocks(),
    ensures
        next_bb_insts(m, is, i, acc) matches Some(x) ==> x < m.nblocks(),
    decreases is.len() - i,
{
    if 0 <= i < is.len() {
        let v = is[i] as int;
        let acc1 = if m.has_opcode(v, Opcode::Br) {
            assert(m.value_wf(v));
            lemma_next_succs_valid(m, m.successors(v), 0, acc);
            next_bb_succs(m, m.successors(v), 0, acc)
        } else {
            acc
        };
        lemma_next_insts_valid(m, is, i + 1, acc1);
    }
}

proof fn lemma_next_valid(m: &Module, b: int)
    requires
        m.wf(),
        0 <= b < m.nblocks(),
    ensures
        next_of(m, b) matches Some(x) ==> x < m.nblocks(),
{
    assert(m.block_wf(b));
    lemma_next_insts_valid(m, m.blocks[b].insts@, 0, None);
}

proof fn lemma_walk_compose(m: &Module, b: int, i: nat, t: nat)
    ensures
        walk_at(m, walk_at(m, b, i), t) == walk_at(m, b, i + t),
    decreases t,
{
    if t > 0 {
        lemma_walk_compose(m, b, i, (t - 1) as nat);
        assert((i + t - 1) as nat == i + (t - 1) as nat);
    }
}

proof fn lemma_ends_same(m: &Module, su: Seq<bool>, b: int, f: nat, g: nat)
    requires
        walk_ends(m, su, b, f),
        walk_ends(m, su, b, g),
    ensures
        store_walk(m, su, b, f) == store_walk(m, su, b, g),
    decreases f,
{
    if block_store(m, su, b) is None {
        if let Some(nb) = next_of(m, b) {
            lemma_ends_same(m, su, nb as int, (f - 1) as nat, (g - 1) as nat);
        }
    }
}

proof fn lemma_not_ends_continues(m: &Module, su: Seq<bool>, b: int, n: nat)
    requires
        !walk_ends(m, su, b, n),
    ensures
        forall|j: nat| j < n ==> continues(m, su, #[trigger] walk_at(m, b, j)),
    decreases n,
{
    if n > 0 {
        let nb = next_of(m, b).unwrap() as int;
        lemma_not_ends_continues(m, su, nb, (n - 1) as nat);
        assert forall|j: nat| j < n implies continues(m, su, #[trigger] walk_at(m, b, j)) by {
            if j > 0 {
                lemma_walk_compose(m, b, 1, (j - 1) as nat);
                assert(walk_at(m, b, 0) == b);
                assert(walk_at(m, b, 1) == nb);
                assert(continues(m, su, walk_at(m, nb, (j - 1) as nat)));
            }
        }
    }
}

proof fn lemma_walk_shift(m: &Module, su: Seq<bool>, b: int, k: nat, g: nat)
    requires
        forall|j: nat| j < k ==> continues(m, su, #[trigger] walk_at(m, b, j)),
        walk_ends(m, su, b, g),
    ensures
        g > k,
        walk_ends(m, su, walk_at(m, b, k), (g - k) as nat),
    decreases k,
{
    if k > 0 {
        assert(continues(m, su, walk_at(m, b, 0)));
        let nb = next_of(m, b).unwrap() as int;
        assert(walk_at(m, b, 1) == nb);
        assert forall|j: nat| j < (k - 1) as nat implies continues(m, su, #[trigger] walk_at(m, nb, j)) by {
            lemma_walk_compose(m, b, 1, j);
            assert(continues(m, su, walk_at(m, b, 1 + j)));
        }
        lemma_walk_shift(m, su, nb, (k - 1) as nat, (g - 1) as nat);
        lemma_walk_compose(m, b, 1, (k - 1) as nat);
    }
}

proof fn lemma_cycle_never_ends(m: &Module, su: Seq<bool>, c: int, p: nat, g: nat)
    requires
        p >= 1,
        forall|j: nat| j < p ==> continues(m, su, #[trigger] walk_at(m, c, j)),
        walk_at(m, c, p) == c,
    ensures
        !walk_ends(m, su, c, g),
    decreases g,
{
    if walk_ends(m, su, c, g) {
        lemma_walk_shift(m, su, c, p, g);
        lemma_cycle_never_ends(m, su, c, p, (g - p) as nat);
    }
}

proof fn lemma_walk_valid(m: &Module, su: Seq<bool>, b: int, k: nat)
    requires
        m.wf(),
        0 <= b < m.nblocks(),
        forall|j: nat| j < k ==> continues(m, su, #[trigger] walk_at(m, b, j)),
    ensures
        0 <= walk_at(m, b, k) < m.nblocks(),
    decreases k,
{
    if k > 0 {
        lemma_walk_valid(m, su, b, (k - 1) as nat);
        assert(continues(m, su, walk_at(m, b, (k - 1) as nat)));
        lemma_next_valid(m, walk_at(m, b, (k - 1) as nat));
    }
}

/// The walk that `check_reentrant_store` makes, bounded by the number of
/// blocks, answers as the unbounded walk does whenever that one comes to an
/// end: a walk that ends at all ends within as many blocks as there are,
/// since a longer one visits a block twice and from there repeats forever.
pub proof fn lemma_store_walk_bound(m: &Module, su: Seq<bool>, b: int, fuel: nat)
    requires
        m.wf(),
        0 <= b < m.nblocks(),
        walk_ends(m, su, b, fuel),
    ensures
        walk_ends(m, su, b, m.nblocks() as nat),
        store_walk(m, su, b, m.nblocks() as nat) == store_walk(m, su, b, fuel),
{
    let n = m.nblocks() as nat;
    if !walk_ends(m, su, b, n) {
        lemma_not_ends_continues(m, su, b, n);
        let s = Seq::new(n + 1, |k: int| walk_at(m, b, k as nat));
        assert forall|k: int| 0 <= k < s.len() implies 0 <= #[trigger] s[k] < n by {
            lemma_walk_valid(m, su, b, k as nat);
        }
        if s.no_duplicates() {
            s.unique_seq_to_set();
            vstd::set_lib::lemma_int_range(0, n as int);
            assert(s.to_set().subset_of(vstd::set_lib::set_int_range(0, n as int))) by {
                assert forall|x: int| s.to_set().contains(x) implies vstd::set_lib::set_int_range(0, n as int).contains(x) by {
                    let k = choose|k: int| 0 <= k < s.len() && s[k] == x;
                    assert(0 <= s[k] < n);
                }
            }
            vstd::set_lib::lemma_len_subset(s.to_set(), vstd::set_lib::set_int_range(0, n as int));
        }
        let (i, j) = choose|i: int, j: int| 0 <= i < s.len() && 0 <= j < s.len() && i != j && s[i] == s[j];
        let (lo, hi) = if i < j { (i, j) } else { (j, i) };
        let c = walk_at(m, b, lo as nat);
        let p = (hi - lo) as nat;
        lemma_walk_compose(m, b, lo as nat, p);
        assert(walk_at(m, c, p) == c);
        assert forall|t: nat| t < p implies continues(m, su, #[trigger] walk_at(m, c, t)) by {
            lemma_walk_compose(m, b, lo as nat, t);
            assert(continues(m, su, walk_at(m, b, lo as nat + t)));
        }
        lemma_cycle_never_ends(m, su, c, p, (fuel - lo) as nat);
        assert forall|t: nat| t < lo as nat implies continues(m, su, #[trigger] walk_at(m, b, t)) by {}
        lemma_walk_shift(m, su, b, lo as nat, fuel);
    }
    lemma_ends_same(m, su, b, n, fuel);
}

proof fn lemma_walk_some_ends(m: &Module, su: Seq<bool>, x: int, fuel: nat)
    requires
        store_walk(m, su, x, fuel) is Some,
    ensures
        walk_ends(m, su, x, fuel),
    decreases fuel,
{
    if block_store(m, su, x) is None {
        if let Some(nb) = next_of(m, x) {
            lemma_walk_some_ends(m, su, nb as int, (fuel - 1) as nat);
        }
    }
}

/// The walk goes on past a block without a state store: when block `b` of
/// function `f` holds no state store and its `bb`-named branch successor is
/// `nb`, the store reported from `b` is the one reported from `nb`. A block
/// with a state store reports its first one, and a block with neither a
/// state store nor a successor to go on to reports nothing.
pub proof fn lemma_walk_goes_on(m: &Module, f: int, b: int)
    requires
        m.wf(),
        0 <= b < m.nblocks(),
    ensures
        block_store(m, self_users(m, f), b) is Some ==> reentrant_store(m, f, b) == block_store(m, self_users(m, f), b),
        block_store(m, self_users(m, f), b) is None && next_of(m, b) is None ==> reentrant_store(m, f, b) is None,
        block_store(m, self_users(m, f), b) is None && next_of(m, b) is Some ==> reentrant_store(m, f, b)
            == reentrant_store(m, f, next_of(m, b).unwrap() as int),
{
    let su = self_users(m, f);
    let n = m.nblocks() as nat;
    if block_store(m, su, b) is None && next_of(m, b) is Some {
        let nb = next_of(m, b).unwrap() as int;
        lemma_next_valid(m, b);
        assert(reentrant_store(m, f, b) == store_walk(m, su, nb, (n - 1) as nat));
        if walk_ends(m, su, nb, (n - 1) as nat) {
            lemma_store_walk_bound(m, su, nb, (n - 1) as nat);
        } else {
            if store_walk(m, su, nb, (n - 1) as nat) is Some {
                lemma_walk_some_ends(m, su, nb, (n - 1) as nat);
            }
            if store_walk(m, su, nb, n) is Some {
                lemma_walk_some_ends(m, su, nb, n);
                assert(walk_ends(m, su, b, n + 1));
                lemma_store_walk_bound(m, su, b, n + 1);
                assert(walk_ends(m, su, b, n));
                assert(walk_ends(m, su, nb, (n - 1) as nat));
            }
        }
    }
}

fn any_return_user(m: &Module, pu: &Vec<bool>) -> (r: bool)
    requires
        m.wf(),
        pu@.len() == m.values@.len(),
    ensures
        r == exists|q: int| 0 <= q < m.nvalues() && #[trigger] pu@[q] && m.has_opcode(q, Opcode::Ret),
{
    let n = m.values.len();
    for q in 0..n
        invariant
            m.wf(),
            n == m.values@.len(),
            pu@.len() == n,
            forall|j: int| 0 <= j < q ==> !(#[trigger] pu@[j] && m.has_opcode(j, Opcode::Ret)),
    {
        if pu[q] && InstructionRef(q).is_return(m) {
            return true;
        }
    }
    false
}

fn is_state_store_exec(m: &Module, su: &Vec<bool>, inst: &InstructionRef) -> (r: bool)
    requires
        m.wf(),
        inst.0 < m.values@.len(),
        su@.len() == m.values@.len(),
    ensures
        r == is_state_store(m, su@, inst.0 as int),
{
    if !inst.is_store(m) || inst.num_operands(m) <= 1 {
        return false;
    }
    let ptr = inst.get_operand(m, 1);
    let pu = users_of(m, ptr, false, false);
    let ret = any_return_user(m, &pu);
    !ret && su[ptr] && has_user_loc(m, inst)
}

fn next_bb_exec(m: &Module, b: usize) -> (r: Option<usize>)
    requires
        m.wf(),
        b < m.blocks@.len(),
    ensures
        r == next_bb_insts(m, m.blocks@[b as int].insts@, 0, None),
        r matches Some(x) ==> x < m.blocks@.len(),
{
    assert(m.block_wf(b as int));
    let is = &m.blocks[b].insts;
    let ghost s = is@;
    let n = is.len();
    let mut acc: Option<usize> = None;
    for i in 0..n
        invariant
            m.wf(),
            n == s.len(),
            s == is@,
            s == m.blocks@[b as int].insts@,
            forall|k: int| 0 <= k < s.len() ==> #[trigger] s[k] < m.values@.len(),
            acc matches Some(x) ==> x < m.blocks@.len(),
            next_bb_insts(m, s, i as int, acc) == next_bb_insts(m, s, 0, None),
    {
        let v = InstructionRef(is[i]);
        assert(m.value_wf(v.0 as int));
        if v.is_branch(m) {
            let ns = v.num_successors(m);
            let ghost acc0 = acc;
            let ghost succs = m.successors(v.0 as int);
            for j in 0..ns
                invariant
                    m.wf(),
                    v.0 < m.values@.len(),
                    ns == succs.len(),
                    succs == m.successors(v.0 as int),
                    acc matches Some(x) ==> x < m.blocks@.len(),
                    next_bb_succs(m, succs, j as int, acc) == next_bb_succs(m, succs, 0, acc0),
            {
                let sb = v.get_successor(m, j);
                proof {
                    reveal_strlit("bb");
                    assert("bb"@ == bb_prefix());
                }
                if str_starts_with(BasicBlockRef(sb).name(m), "bb") {
                    acc = Some(sb);
                }
            }
        }
    }
    acc
}

fn block_store_exec(m: &Module, su: &Vec<bool>, b: usize) -> (r: Option<usize>)
    requires
        m.wf(),
        b < m.blocks@.len(),
        su@.len() == m.values@.len(),
    ensures
        r == block_store(m, su@, b as int),
        r matches Some(v) ==> v < m.values@.len() && is_state_store(m, su@, v as int),
{
    assert(m.block_wf(b as int));
    let is = &m.blocks[b].insts;
    let ghost s = is@;
    let ghost p = |k: int| is_state_store(m, su@, s[k] as int);
    let n = is.len();
    for i in 0..n
        invariant
            m.wf(),
            n == s.len(),
            s == is@,
            s == m.blocks@[b as int].insts@,
            su@.len() == m.values@.len(),
            forall|k: int| 0 <= k < s.len() ==> #[trigger] s[k] < m.values@.len(),
            p == (|k: int| is_state_store(m, su@, s[k] as int)),
            forall|k: int| 0 <= k < i ==> !#[trigger] p(k),
    {
        if is_state_store_exec(m, su, &InstructionRef(is[i])) {
            proof {
                lemma_first_index(n as int, p, i as int);
            }
            return Some(is[i]);
        }
    }
    proof {
        lemma_first_index_none(n as int, p);
    }
    None
}

/// Walks from `start_bb` along the `bb`-named branch successors and returns the
/// first store into a field of `self` whose location is not used in a return,
/// at a non-library location. The walk visits at most as many blocks as the
/// module has: a longer walk has entered a cycle of blocks it already searched,
/// and never ends. Whenever the unbounded walk ends, this one gives its answer
/// (`lemma_store_walk_bound`).
pub fn check_reentrant_store(m: &Module, func: &FunctionRef, start_bb: usize) -> (r: Option<usize>)
    requires
        m.wf(),
        func.0 < m.functions@.len(),
        m.functions@[func.0 as int].params@.len() > 0,
        start_bb < m.blocks@.len(),
    ensures
        r == reentrant_store(m, func.0 as int, start_bb as int),
        r matches Some(v) ==> v < m.values@.len() && user_loc(m, v as int),
{
    let self_param = func.get_param(m, 0);
    let su = users_of(m, self_param, false, false);
    let mut current = start_bb;
    let mut fuel = m.blocks.len();
    assert(store_walk(m, su@, current as int, fuel as nat) == reentrant_store(m, func.0 as int, start_bb as int));
    while fuel > 0
        invariant
            m.wf(),
            current < m.blocks@.len(),
            su@.len() == m.values@.len(),
            store_walk(m, su@, current as int, fuel as nat) == reentrant_store(m, func.0 as int, start_bb as int),
        decreases fuel,
    {
        match block_store_exec(m, &su, current) {
            Some(v) => {
                return Some(v);
            },
            None => {},
        }
        match next_bb_exec(m, current) {
            Some(nb) => {
                current = nb;
                fuel = fuel - 1;
            },
            None => {
                return None;
            },
        }
    }
    None
}

/// The block of the first case of a switch whose value is the constant 1
/// (`PromiseResult::Successful`), for the cases `i..`.
pub open spec fn case_one_from(m: &Module, u: int, i: int) -> Option<usize>
    decreases m.operands(u).len() - i,
{
    let ncases = if m.operands(u).len() >= 2 { (m.operands(u).len() - 2) / 2 } else { 0 };
    if i < 0 || i >= ncases {
        None
    } else if m.valid(m.operands(u)[2 + 2 * i] as int)
        && m.values[m.operands(u)[2 + 2 * i] as int].kind == ValueKind::ConstantInt(1)
        && i + 1 < m.successors(u).len() {
        Some(m.successors(u)[i + 1])
    } else {
        case_one_from(m, u, i + 1)
    }
}

/// When `u` is a switch, the block taken on `PromiseResult::Successful`.
pub open spec fn success_case(m: &Module, u: int) -> Option<usize> {
    if m.has_opcode(u, Opcode::Switch) {
        case_one_from(m, u, 0)
    } else {
        None
    }
}

/// The `Successful` block of the first switch among the users `pu` of the result.
pub open spec fn success_block(m: &Module, pu: Seq<bool>) -> Option<usize> {
    match first_index(m.nvalues(), |u: int| pu[u] && success_case(m, u) is Some) {
        Some(u) => success_case(m, u),
        None => None,
    }
}

/// The first conditional branch among the users `pu` of the result.
pub open spec fn branch_user(m: &Module, pu: Seq<bool>) -> Option<int> {
    first_index(m.nvalues(), |u: int| pu[u] && m.has_opcode(u, Opcode::Br) && m.successors(u).len() >= 2)
}

/// The line for the store the walk from `b` reports, if any.
pub open spec fn store_lines(m: &Module, f: int, b: int) -> Seq<Seq<char>> {
    match reentrant_store(m, f, b) {
        Some(v) => {
            let l = m.debug_loc(v as int).unwrap();
            seq![loc_line(m.function_name(f), l.filename@, l.line as nat)]
        },
        None => Seq::empty(),
    }
}

/// The lines for the successors `succs[..n]` of a branch.
pub open spec fn branch_lines(m: &Module, f: int, succs: Seq<usize>, n: int) -> Seq<Seq<char>>
    decreases n,
{
    if n <= 0 {
        Seq::empty()
    } else {
        branch_lines(m, f, succs, n - 1) + store_lines(m, f, succs[n - 1] as int)
    }
}

pub open spec fn promise_result_pattern() -> Seq<char> {
    r"(near_sdk[0-9]+environment[0-9]+env[0-9]+(promise_result|promise_results_count)[0-9]+)|(near_sdk[0-9]+utils[0-9]+(is_promise_success|promise_result_as_success)[0-9]+)"@
}

/// `v` is a promise-result read at a non-library location, with its result
/// pointer as argument 0.
pub open spec fn is_result_read(m: &Module, v: int) -> bool {
    user_loc(m, v) && inst_calls(m, v, promise_result_pattern()) && m.args(v).len() > 0
}

/// The lines for function `f` from its instructions `is[i..]`: at the first
/// result read with a `Successful` switch or a conditional branch among its
/// users, the walks from there.
pub open spec fn reentrancy_insts(m: &Module, f: int, is: Seq<usize>, i: int) -> Seq<Seq<char>>
    decreases is.len() - i,
{
    if i < 0 || i >= is.len() {
        Seq::empty()
    } else if !is_result_read(m, is[i] as int) {
        reentrancy_insts(m, f, is, i + 1)
    } else {
        let pu = users_spec(m, m.args(is[i] as int)[0] as int, false, true);
        match success_block(m, pu) {
            Some(b) => store_lines(m, f, b as int),
            None => match branch_user(m, pu) {
                Some(br) => branch_lines(m, f, m.successors(br), m.successors(br).len() as int),
                None => reentrancy_insts(m, f, is, i + 1),
            },
        }
    }
}

/// The lines recorded for function `f`.
pub open spec fn reentrancy_fn(m: &Module, f: int) -> Seq<Seq<char>> {
    if is_lib_name(m, f) || m.functions[f].params@.len() == 0 {
        Seq::empty()
    } else {
        reentrancy_insts(m, f, fn_insts(m, f), 0)
    }
}

fn case_one_exec(m: &Module, u: usize) -> (r: Option<usize>)
    requires
        m.wf(),
        u < m.values@.len(),
    ensures
        r == success_case(m, u as int),
        r matches Some(b) ==> b < m.blocks@.len(),
{
    let ui = InstructionRef(u);
    if !ui.is_switch(m) {
        return None;
    }
    assert(m.value_wf(u as int));
    let nops = ui.num_operands(m);
    let ncases = if nops >= 2 { (nops - 2) / 2 } else { 0 };
    let nsucc = ui.num_successors(m);
    let mut i: usize = 0;
    while i < ncases
        invariant
            m.wf(),
            u < m.values@.len(),
            ui.0 == u,
            nops == m.operands(u as int).len(),
            nsucc == m.successors(u as int).len(),
            ncases == (if nops >= 2 { (nops - 2) / 2 } else { 0 }),
            i <= ncases,
            case_one_from(m, u as int, i as int) == success_case(m, u as int),
        decreases ncases - i,
    {
        let c = ui.get_operand(m, 2 + 2 * i);
        let one = match &m.values[c].kind {
            ValueKind::ConstantInt(x) => *x == 1,
            _ => false,
        };
        if one && i + 1 < nsucc {
            return Some(ui.get_successor(m, i + 1));
        }
        i += 1;
    }
    None
}

fn success_block_exec(m: &Module, pu: &Vec<bool>) -> (r: Option<usize>)
    requires
        m.wf(),
        pu@.len() == m.values@.len(),
    ensures
        r == success_block(m, pu@),
        r matches Some(b) ==> b < m.blocks@.len(),
{
    let ghost p = |u: int| pu@[u] && success_case(m, u) is Some;
    let n = m.values.len();
    for u in 0..n
        invariant
            m.wf(),
            n == m.values@.len(),
            pu@.len() == n,
            p == (|u: int| pu@[u] && success_case(m, u) is Some),
            forall|k: int| 0 <= k < u ==> !#[trigger] p(k),
    {
        if pu[u] {
            let c = case_one_exec(m, u);
            if c.is_some() {
                proof {
                    lemma_first_index(n as int, p, u as int);
                }
                return c;
            }
        }
    }
    proof {
        lemma_first_index_none(n as int, p);
    }
    None
}

fn branch_user_exec(m: &Module, pu: &Vec<bool>) -> (r: Option<usize>)
    requires
        m.wf(),
        pu@.len() == m.values@.len(),
    ensures
        r matches Some(u) ==> branch_user(m, pu@) == Some(u as int) && u < m.values@.len(),
        r is None ==> branch_user(m, pu@) is None,
{
    let ghost p = |u: int| pu@[u] && m.has_opcode(u, Opcode::Br) && m.successors(u).len() >= 2;
    let n = m.values.len();
    for u in 0..n
        invariant
            m.wf(),
            n == m.values@.len(),
            pu@.len() == n,
            p == (|u: int| pu@[u] && m.has_opcode(u, Opcode::Br) && m.successors(u).len() >= 2),
            forall|k: int| 0 <= k < u ==> !#[trigger] p(k),
    {
        let ui = InstructionRef(u);
        if pu[u] && ui.is_branch(m) && ui.num_successors(m) >= 2 {
            proof {
                lemma_first_index(n as int, p, u as int);
            }
            return Some(u);
        }
    }
    proof {
        lemma_first_index_none(n as int, p);
    }
    None
}

fn write_store(m: &Module, func: &FunctionRef, b: usize, w: &mut TmpWriter)
    requires
        m.wf(),
        func.0 < m.functions@.len(),
        m.functions@[func.0 as int].params@.len() > 0,
        b < m.blocks@.len(),
    ensures
        final(w).lines_view() == old(w).lines_view() + store_lines(m, func.0 as int, b as int),
        final(w).detector == old(w).detector,
{
    match check_reentrant_store(m, func, b) {
        Some(v) => {
            let loc = InstructionRef(v).debug_loc(m).unwrap();
            w.write(func.name(m), loc.filename.as_str(), loc.line);
        },
        None => {
            assert(old(w).lines_view() + Seq::<Seq<char>>::empty() == old(w).lines_view());
        },
    }
}

fn reentrancy_in(m: &Module, f: usize, w: &mut TmpWriter)
    requires
        m.wf(),
        f < m.functions@.len(),
    ensures
        final(w).lines_view() == old(w).lines_view() + reentrancy_fn(m, f as int),
        final(w).detector == old(w).detector,
{
    let func = FunctionRef(f);
    assert(old(w).lines_view() + Seq::<Seq<char>>::empty() == old(w).lines_view());
    if is_lib_func(func.name(m)) || func.param_count(m) == 0 {
        return;
    }
    let pr = promise_result();
    let insts = all_instructions(m, &func);
    let ghost is = fn_insts(m, f as int);
    let n = insts.len();
    let mut k: usize = 0;
    while k < n
        invariant
            m.wf(),
            f < m.functions@.len(),
            func.0 == f,
            m.functions@[f as int].params@.len() > 0,
            pr@ == promise_result_pattern(),
            n == insts@.len(),
            n == is.len(),
            is == fn_insts(m, f as int),
            forall|j: int| 0 <= j < n ==> (#[trigger] insts@[j]).0 == is[j],
            forall|j: int| 0 <= j < n ==> (#[trigger] insts@[j]).0 < m.values@.len(),
            k <= n,
            w.detector == old(w).detector,
            old(w).lines_view() + reentrancy_fn(m, f as int) == w.lines_view() + reentrancy_insts(
                m,
                f as int,
                is,
                k as int,
            ),
        decreases n - k,
    {
        let inst = &insts[k];
        assert(inst.0 == is[k as int]);
        if has_user_loc(m, inst) && is_inst_call_func(m, inst, pr) && inst.num_args(m) > 0 {
            let arg0 = inst.get_arg(m, 0);
            let pu = users_of(m, arg0, false, true);
            match success_block_exec(m, &pu) {
                Some(b) => {
                    let ghost before = w.lines_view();
                    write_store(m, &func, b, w);
                    assert(w.lines_view() == old(w).lines_view() + reentrancy_fn(m, f as int)) by {
                        assert(before + store_lines(m, f as int, b as int) == old(w).lines_view() + reentrancy_fn(m, f as int));
                    }
                    return;
                },
                None => {},
            }
            match branch_user_exec(m, &pu) {
                Some(br) => {
                    let bi = InstructionRef(br);
                    let ns = bi.num_successors(m);
                    let ghost succs = m.successors(br as int);
                    let ghost before = w.lines_view();
                    assert(before + reentrancy_insts(m, f as int, is, k as int) == old(w).lines_view() + reentrancy_fn(m, f as int));
                    assert(reentrancy_insts(m, f as int, is, k as int) == branch_lines(m, f as int, succs, ns as int));
                    for j in 0..ns
                        invariant
                            m.wf(),
                            br < m.values@.len(),
                            bi.0 == br,
                            ns == succs.len(),
                            succs == m.successors(br as int),
                            func.0 == f,
                            f < m.functions@.len(),
                            m.functions@[f as int].params@.len() > 0,
                            w.detector == old(w).detector,
                            w.lines_view() == before + branch_lines(m, f as int, succs, j as int),
                    {
                        let sb = bi.get_successor(m, j);
                        write_store(m, &func, sb, w);
                        assert(before + branch_lines(m, f as int, succs, j + 1) =~= before + branch_lines(m, f as int, succs, j as int)
                            + store_lines(m, f as int, sb as int));
                    }
                    return;
                },
                None => {},
            }
        }
        k += 1;
    }
    assert(w.lines_view() + reentrancy_insts(m, f as int, is, n as int) =~= w.lines_view());
}

/// Records every state change found in the `Successful` branch of a callback.
pub fn reentrancy(m: &Module, w: &mut TmpWriter)
    requires
        m.wf(),
    ensures
        final(w).lines_view() == old(w).lines_view() + module_lines(m, |f: int| reentrancy_fn(m, f)),
        final(w).detector == old(w).detector,
{
    let ghost per = |f: int| reentrancy_fn(m, f);
    let n = m.functions.len();
    for k in 0..n
        invariant
            m.wf(),
            n == m.functions@.len(),
            per == (|f: int| reentrancy_fn(m, f)),
            w.lines_view() == old(w).lines_view() + concat_upto(k as int, per),
            w.detector == old(w).detector,
    {
        reentrancy_in(m, k, w);
        proof {
            lemma_concat_upto_step(old(w).lines_view(), k as int, per);
        }
    }
}

} // verus!
