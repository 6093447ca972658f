use rustle::detectors::all_call::all_call;
use rustle::detectors::callback::callback;
use rustle::detectors::callback_panic::callback_panic;
use rustle::detectors::complex_loop::complex_loop;
use rustle::detectors::div_before_mul::div_before_mul;
use rustle::detectors::ext_call::ext_call;
use rustle::detectors::ext_call_trait::ext_call_trait;
use rustle::detectors::missing_owner_check::missing_owner_check;
use rustle::detectors::nep_interface::nep_interface;
use rustle::detectors::nft_approval_check::nft_approval_check;
use rustle::detectors::nft_owner_check::nft_owner_check;
use rustle::detectors::prepaid_gas::prepaid_gas;
use rustle::detectors::promise_chain::promise_chain;
use rustle::detectors::reentrancy::reentrancy;
use rustle::detectors::self_transfer::self_transfer;
use rustle::detectors::state_change_before_call::state_change_before_call;
use rustle::detectors::storage_gas::storage_gas;
use rustle::detectors::struct_member::{struct_member, Mode};
use rustle::detectors::timestamp::timestamp;
use rustle::detectors::transfer::transfer;
use rustle::detectors::unchecked_promise_result::unchecked_promise_result;
use rustle::detectors::unclaimed_storage_fee::unclaimed_storage_fee;
use rustle::detectors::unhandled_promise::unhandled_promise;
use rustle::detectors::unregistered_receiver::unregistered_receiver;
use rustle::detectors::unsafe_math::unsafe_math;
use rustle::detectors::unsaved_changes::unsaved_changes;
use rustle::detectors::upgrade_func::upgrade_func;
use rustle::detectors::upgrade_owner_check::upgrade_owner_check;
use rustle::detectors::yocto_attach::yocto_attach;
use rustle::callgraph::find_function_callers;
use rustle::detectors::self_transfer::has_sender_receiver_check;
use rustle::ir::{FunctionRef, Block, DebugLoc, Function, Inst, IntPredicate, Module, Opcode, TypeInfo, TypeKind, Value, ValueKind};
use rustle::output::TmpWriter;

const SRC: &str = "src/lib.rs";

fn int_ty(width: u32) -> Option<TypeInfo> {
    Some(TypeInfo { kind: TypeKind::Integer, int_width: width, text: format!("i{}", width) })
}

fn ptr_ty(text: &str) -> Option<TypeInfo> {
    Some(TypeInfo { kind: TypeKind::Pointer, int_width: 0, text: text.to_string() })
}

fn module() -> Module {
    Module { values: Vec::new(), functions: Vec::new(), blocks: Vec::new() }
}

fn value(m: &mut Module, name: &str, ty: Option<TypeInfo>, kind: ValueKind) -> usize {
    m.values.push(Value { name: name.to_string(), ty, kind, users: Vec::new() });
    m.values.len() - 1
}

fn func(m: &mut Module, name: &str) -> usize {
    let f = m.functions.len();
    let v = value(m, name, ptr_ty("ptr"), ValueKind::Function(f));
    m.functions.push(Function { value: v, params: Vec::new(), blocks: Vec::new() });
    f
}

fn param(m: &mut Module, f: usize, name: &str) -> usize {
    let v = value(m, name, ptr_ty("ptr"), ValueKind::Other);
    m.functions[f].params.push(v);
    v
}

fn block(m: &mut Module, f: usize, name: &str) -> usize {
    let b = m.blocks.len();
    m.blocks.push(Block { name: name.to_string(), func: f, insts: Vec::new() });
    m.functions[f].blocks.push(b);
    b
}

fn const_int(m: &mut Module, x: u64) -> usize {
    value(m, "", int_ty(64), ValueKind::ConstantInt(x))
}

fn loc(line: u32) -> Option<DebugLoc> {
    Some(DebugLoc { filename: SRC.to_string(), line })
}

fn lib_loc() -> Option<DebugLoc> {
    Some(DebugLoc { filename: "/rustc/abc/library/core/src/fmt.rs".to_string(), line: 7 })
}

fn inst_full(
    m: &mut Module,
    b: usize,
    opcode: Opcode,
    operands: Vec<usize>,
    args: Vec<usize>,
    callee: Option<usize>,
    successors: Vec<usize>,
    dl: Option<DebugLoc>,
) -> usize {
    let i = Inst {
        opcode,
        block: b,
        operands,
        args,
        callee,
        successors,
        debug_loc: dl,
        predicate: None,
        gep_source_type: String::new(),
    };
    let v = value(m, "", int_ty(64), ValueKind::Instruction(i));
    m.blocks[b].insts.push(v);
    v
}

fn inst(m: &mut Module, b: usize, opcode: Opcode, operands: Vec<usize>, dl: Option<DebugLoc>) -> usize {
    inst_full(m, b, opcode, operands, Vec::new(), None, Vec::new(), dl)
}

fn call(m: &mut Module, b: usize, callee: usize, args: Vec<usize>, dl: Option<DebugLoc>) -> usize {
    let cv = m.functions[callee].value;
    let mut ops = args.clone();
    ops.push(cv);
    inst_full(m, b, Opcode::Call, ops, args, Some(cv), Vec::new(), dl)
}

fn ret(m: &mut Module, b: usize) -> usize {
    inst(m, b, Opcode::Ret, Vec::new(), None)
}

/// Fills in the use lists from the operands and checks the module.
fn finish(mut m: Module) -> Module {
    let n = m.values.len();
    for v in 0..n {
        let ops = match &m.values[v].kind {
            ValueKind::Instruction(i) => i.operands.clone(),
            _ => Vec::new(),
        };
        for o in ops {
            if !m.values[o].users.contains(&v) {
                m.values[o].users.push(v);
            }
        }
    }
    assert!(m.is_well_formed());
    m
}

fn writer() -> TmpWriter {
    TmpWriter::new("test")
}

const PROMISE_RESULT: &str = "_ZN8near_sdk11environment3env14promise_result17h01E";
const IS_SUCCESS: &str = "_ZN8near_sdk5utils18is_promise_success17h02E";
const PREDECESSOR: &str = "_ZN8near_sdk11environment3env22predecessor_account_id17h03E";
const ACCOUNT_EQ: &str = "near_sdk..types..account_id..AccountId$u20$as$u20$core..cmp..PartialEq";
const DEPLOY: &str = "promise_batch_action_deploy_contract";
const FUNCTION_CALL: &str = "promise_batch_action_function_call";
const DROP_PROMISE: &str = "_ZN4core3ptr55drop_in_place$LT$near_sdk..promise..Promise$GT$17h04E";
const TRANSFER: &str = "_ZN8near_sdk7promise7Promise8transfer17h05E";
const TIMESTAMP: &str = "_ZN8near_sdk11environment3env15block_timestamp17h06E";

#[test]
fn all_call_records_user_calls_by_callee() {
    let mut m = module();
    let callee = func(&mut m, "helper");
    let f = func(&mut m, "_ZN3amm4swap17h00E");
    let b = block(&mut m, f, "start");
    call(&mut m, b, callee, Vec::new(), loc(12));
    call(&mut m, b, callee, Vec::new(), lib_loc());
    ret(&mut m, b);
    let m = finish(m);
    let mut w = writer();
    all_call(&m, &mut w);
    assert_eq!(w.lines, vec!["helper@src/lib.rs@12".to_string()]);
}

#[test]
fn timestamp_reports_every_use() {
    let mut m = module();
    let ts = func(&mut m, TIMESTAMP);
    let f = func(&mut m, "_ZN3amm10get_return17h00E");
    let b = block(&mut m, f, "start");
    call(&mut m, b, ts, Vec::new(), loc(3));
    call(&mut m, b, ts, Vec::new(), loc(9));
    let m = finish(m);
    let mut w = writer();
    timestamp(&m, &mut w);
    assert_eq!(w.lines, vec!["_ZN3amm10get_return17h00E@src/lib.rs@3".to_string(), "_ZN3amm10get_return17h00E@src/lib.rs@9".to_string()]);
}

#[test]
fn callback_records_readers_of_promise_results() {
    let mut m = module();
    let pr = func(&mut m, PROMISE_RESULT);
    let cb = func(&mut m, "on_done");
    let b = block(&mut m, cb, "start");
    inst(&mut m, b, Opcode::Add, Vec::new(), loc(4));
    call(&mut m, b, pr, Vec::new(), loc(5));
    let other = func(&mut m, "plain");
    let b2 = block(&mut m, other, "start");
    ret(&mut m, b2);
    let m = finish(m);
    let mut w = writer();
    callback(&m, &mut w);
    assert_eq!(w.lines, vec!["on_done@src/lib.rs".to_string()]);
}

#[test]
fn callback_panic_needs_callback_and_unwrap() {
    let mut m = module();
    let pr = func(&mut m, PROMISE_RESULT);
    let unwrap = func(&mut m, "_ZN4core6option13unwrap_failed17h07E");
    let cb = func(&mut m, "on_done");
    let b = block(&mut m, cb, "start");
    call(&mut m, b, pr, Vec::new(), loc(20));
    call(&mut m, b, unwrap, Vec::new(), loc(21));
    let only_cb = func(&mut m, "on_other");
    let b2 = block(&mut m, only_cb, "start");
    call(&mut m, b2, pr, Vec::new(), loc(30));
    let m = finish(m);
    let mut w = writer();
    callback_panic(&m, &mut w);
    assert_eq!(w.lines, vec!["on_done@src/lib.rs@20".to_string()]);
}

#[test]
fn unchecked_promise_result_skips_checked_callbacks() {
    let mut m = module();
    let pr = func(&mut m, PROMISE_RESULT);
    let ok = func(&mut m, IS_SUCCESS);
    let unchecked = func(&mut m, "on_a");
    let b = block(&mut m, unchecked, "start");
    call(&mut m, b, pr, Vec::new(), loc(40));
    let checked = func(&mut m, "on_b");
    let b2 = block(&mut m, checked, "start");
    call(&mut m, b2, pr, Vec::new(), loc(50));
    call(&mut m, b2, ok, Vec::new(), loc(51));
    let m = finish(m);
    let mut w = writer();
    unchecked_promise_result(&m, &mut w);
    assert_eq!(w.lines, vec!["on_a@src/lib.rs@40".to_string()]);
}

#[test]
fn promise_chain_flags_constant_index() {
    let mut m = module();
    let pr = func(&mut m, PROMISE_RESULT);
    let f = func(&mut m, "on_swap");
    let b = block(&mut m, f, "start");
    let ret_slot = value(&mut m, "ret", ptr_ty("ptr"), ValueKind::Other);
    let idx = const_int(&mut m, 0);
    call(&mut m, b, pr, vec![ret_slot, idx], loc(60));
    let g = func(&mut m, "on_dynamic");
    let b2 = block(&mut m, g, "start");
    let i = param(&mut m, g, "i");
    call(&mut m, b2, pr, vec![ret_slot, i], loc(61));
    let m = finish(m);
    let mut w = writer();
    promise_chain(&m, &mut w);
    assert_eq!(w.lines, vec!["on_swap@src/lib.rs@60".to_string()]);
}

#[test]
fn transfer_reports_direct_and_nested_transfers() {
    let mut m = module();
    let t = func(&mut m, TRANSFER);
    let helper = func(&mut m, "pay_out");
    let hb = block(&mut m, helper, "start");
    call(&mut m, hb, t, Vec::new(), loc(70));
    let f = func(&mut m, "withdraw");
    let b = block(&mut m, f, "start");
    call(&mut m, b, helper, Vec::new(), loc(80));
    let m = finish(m);
    let mut w = writer();
    transfer(&m, &mut w);
    assert_eq!(w.lines, vec!["pay_out@src/lib.rs@70".to_string(), "withdraw@src/lib.rs@80".to_string()]);
}

#[test]
fn unsafe_math_reports_named_integer_arithmetic() {
    let mut m = module();
    let f = func(&mut m, "add_fee");
    let b = block(&mut m, f, "start");
    let x = value(&mut m, "amount", int_ty(128), ValueKind::Other);
    let y = value(&mut m, "", int_ty(128), ValueKind::Other);
    inst(&mut m, b, Opcode::Add, vec![x, y], loc(90));
    inst(&mut m, b, Opcode::Mul, vec![y, y], loc(91));
    inst(&mut m, b, Opcode::FAdd, vec![x, x], loc(92));
    let m = finish(m);
    let mut w = writer();
    unsafe_math(&m, &mut w);
    assert_eq!(w.lines, vec!["add_fee@src/lib.rs@90".to_string()]);
}

#[test]
fn div_before_mul_follows_the_quotient() {
    let mut m = module();
    let f = func(&mut m, "get_return");
    let b = block(&mut m, f, "start");
    let x = value(&mut m, "fee", int_ty(128), ValueKind::Other);
    let d = inst(&mut m, b, Opcode::UDiv, vec![x, x], loc(100));
    inst(&mut m, b, Opcode::Mul, vec![d, x], loc(101));
    let d2 = inst(&mut m, b, Opcode::UDiv, vec![x, x], loc(102));
    inst(&mut m, b, Opcode::Add, vec![d2, x], loc(103));
    let m = finish(m);
    let mut w = writer();
    div_before_mul(&m, &mut w);
    assert_eq!(w.lines, vec!["get_return@src/lib.rs@100".to_string()]);
}

fn owner_check_module(with_check: bool) -> Module {
    let mut m = module();
    let dep = func(&mut m, DEPLOY);
    let fc = func(&mut m, FUNCTION_CALL);
    let pred = func(&mut m, PREDECESSOR);
    let eq = func(&mut m, ACCOUNT_EQ);
    let f = func(&mut m, "upgrade");
    let b = block(&mut m, f, "start");
    inst(&mut m, b, Opcode::Alloca, Vec::new(), loc(110));
    if with_check {
        call(&mut m, b, pred, Vec::new(), loc(111));
        call(&mut m, b, eq, Vec::new(), loc(112));
    }
    call(&mut m, b, dep, Vec::new(), loc(113));
    call(&mut m, b, fc, Vec::new(), loc(114));
    finish(m)
}

#[test]
fn upgrade_func_finds_upgrades() {
    let m = owner_check_module(false);
    let mut w = writer();
    assert!(upgrade_func(&m, &mut w));
    assert_eq!(w.lines, vec!["upgrade@src/lib.rs".to_string()]);
}

#[test]
fn upgrade_owner_check_flags_unguarded_upgrade() {
    let m = owner_check_module(false);
    let mut w = writer();
    upgrade_owner_check(&m, &mut w);
    assert_eq!(w.lines, vec!["upgrade@src/lib.rs@110".to_string()]);
    let guarded = owner_check_module(true);
    let mut w2 = writer();
    upgrade_owner_check(&guarded, &mut w2);
    assert!(w2.lines.is_empty());
}

#[test]
fn missing_owner_check_reports_first_sensitive_call() {
    let m = owner_check_module(false);
    let mut w = writer();
    missing_owner_check(&m, &mut w);
    assert_eq!(w.lines, vec!["upgrade@src/lib.rs@113".to_string()]);
    let guarded = owner_check_module(true);
    let mut w2 = writer();
    missing_owner_check(&guarded, &mut w2);
    assert!(w2.lines.is_empty());
}

#[test]
fn nft_owner_check_reports_privilege() {
    let mut m = module();
    let pred = func(&mut m, PREDECESSOR);
    let eq = func(&mut m, ACCOUNT_EQ);
    let approve = func(&mut m, "_ZN6market11nft_approve17h00E");
    let b = block(&mut m, approve, "start");
    call(&mut m, b, pred, Vec::new(), loc(120));
    call(&mut m, b, eq, Vec::new(), loc(121));
    let revoke = func(&mut m, "_ZN6market10nft_revoke17h00E");
    let b2 = block(&mut m, revoke, "start");
    ret(&mut m, b2);
    let m = finish(m);
    let mut w = writer();
    nft_owner_check(&m, &mut w);
    assert_eq!(
        w.lines,
        vec!["_ZN6market11nft_approve17h00E@True".to_string(), "_ZN6market10nft_revoke17h00E@False".to_string()]
    );
}

#[test]
fn yocto_attach_skips_callbacks_and_checked_functions() {
    let mut m = module();
    let pred = func(&mut m, PREDECESSOR);
    let eq = func(&mut m, ACCOUNT_EQ);
    let yocto = func(&mut m, "_ZN8near_sdk5utils16assert_one_yocto17h00E");
    let names = ["delist", "on_cb", "set_owner"];
    for (k, name) in names.iter().enumerate() {
        let f = func(&mut m, name);
        let b = block(&mut m, f, "start");
        call(&mut m, b, pred, Vec::new(), loc(130 + k as u32));
        call(&mut m, b, eq, Vec::new(), loc(140 + k as u32));
        if *name == "set_owner" {
            call(&mut m, b, yocto, Vec::new(), loc(150));
        }
    }
    let m = finish(m);
    let mut w = writer();
    yocto_attach(&m, &vec!["on_cb".to_string()], &mut w);
    assert_eq!(w.lines, vec!["delist@src/lib.rs".to_string()]);
}

#[test]
fn ext_call_trait_and_ext_call_chain() {
    let mut m = module();
    let fc = func(&mut m, "_ZN3amm8near_sdk7promise7Promise13function_call17h00E");
    let remote = func(&mut m, "_ZN3ext9ft_remote17h00E");
    let rb = block(&mut m, remote, "start");
    call(&mut m, rb, fc, Vec::new(), loc(160));
    let user = func(&mut m, "swap");
    let ub = block(&mut m, user, "start");
    call(&mut m, ub, remote, Vec::new(), loc(170));
    let m = finish(m);
    let mut w = writer();
    ext_call_trait(&m, &mut w);
    assert_eq!(w.lines, vec!["_ZN3ext9ft_remote17h00E".to_string()]);
    let pats = vec!["ft_remote".to_string(), "remote".to_string(), "nothing".to_string()];
    let mut w2 = writer();
    ext_call(&m, &pats, &mut w2);
    assert_eq!(w2.lines, vec!["swap@src/lib.rs@170".to_string(), "swap@src/lib.rs@170".to_string()]);
}

#[test]
fn unhandled_promise_reports_once_per_dropped_value() {
    let mut m = module();
    let drop = func(&mut m, DROP_PROMISE);
    let make = func(&mut m, "_ZN8near_sdk7promise7Promise3new17h00E");
    let f = func(&mut m, "set_fee_rate");
    let b = block(&mut m, f, "start");
    let slot = inst(&mut m, b, Opcode::Alloca, Vec::new(), loc(179));
    call(&mut m, b, make, vec![slot], loc(180));
    call(&mut m, b, drop, vec![slot], loc(181));
    call(&mut m, b, drop, vec![slot], loc(182));
    let m = finish(m);
    let mut w = writer();
    unhandled_promise(&m, &mut w);
    assert_eq!(w.lines, vec!["set_fee_rate@src/lib.rs@180".to_string()]);
}

#[test]
fn state_change_before_call_needs_store_to_self() {
    let mut m = module();
    let drop = func(&mut m, DROP_PROMISE);
    let make = func(&mut m, "_ZN8near_sdk7promise7Promise3new17h00E");
    let f = func(&mut m, "unstake");
    let this = param(&mut m, f, "self");
    let b = block(&mut m, f, "start");
    let zero = const_int(&mut m, 0);
    inst(&mut m, b, Opcode::Store, vec![zero, this], loc(189));
    let slot = inst(&mut m, b, Opcode::Alloca, Vec::new(), loc(190));
    call(&mut m, b, make, vec![slot], loc(191));
    call(&mut m, b, drop, vec![slot], loc(192));
    let g = func(&mut m, "view");
    param(&mut m, g, "self");
    let gb = block(&mut m, g, "start");
    let slot2 = inst(&mut m, gb, Opcode::Alloca, Vec::new(), loc(200));
    call(&mut m, gb, make, vec![slot2], loc(201));
    call(&mut m, gb, drop, vec![slot2], loc(202));
    let m = finish(m);
    let mut w = writer();
    state_change_before_call(&m, &mut w);
    assert_eq!(w.lines, vec!["unstake@src/lib.rs@191".to_string()]);
}

#[test]
fn unsaved_changes_flags_mutation_without_insert() {
    let get_name = "_ZN8near_sdk11collections13unordered_map21UnorderedMap$LT$K$C$V$GT$3get17h00E";
    let insert_name = "_ZN8near_sdk11collections13unordered_map21UnorderedMap$LT$K$C$V$GT$6insert17h00E";
    let unwrap_name = "_ZN4core6option15Option$LT$T$GT$6unwrap17h00E";
    let build = |save: bool| -> Module {
        let mut m = module();
        let get = func(&mut m, get_name);
        let ins = func(&mut m, insert_name);
        let unwrap = func(&mut m, unwrap_name);
        let f = func(&mut m, "stake");
        let this = param(&mut m, f, "self");
        let b = block(&mut m, f, "start");
        let key = const_int(&mut m, 1);
        let got = call(&mut m, b, get, vec![this, key], loc(210));
        let info = call(&mut m, b, unwrap, vec![got], loc(211));
        let one = const_int(&mut m, 1);
        inst(&mut m, b, Opcode::Store, vec![one, got], loc(212));
        if save {
            call(&mut m, b, ins, vec![this, key, got], loc(213));
        }
        let _ = info;
        finish(m)
    };
    let mut w = writer();
    unsaved_changes(&build(false), &mut w);
    assert_eq!(w.lines, vec!["stake@src/lib.rs@210".to_string()]);
    let mut w2 = writer();
    unsaved_changes(&build(true), &mut w2);
    assert!(w2.lines.is_empty());
}

#[test]
fn storage_gas_checks_callers() {
    let mut m = module();
    let insert = func(&mut m, "_ZN8near_sdk11collections13unordered_map12UnorderedMap6insert17h00E");
    let usage = func(&mut m, "_ZN8near_sdk11environment3env13storage_usage17h00E");
    let inner = func(&mut m, "add_entry");
    let ib = block(&mut m, inner, "start");
    call(&mut m, ib, insert, Vec::new(), loc(220));
    let outer = func(&mut m, "register");
    let ob = block(&mut m, outer, "start");
    call(&mut m, ob, usage, Vec::new(), loc(221));
    call(&mut m, ob, inner, Vec::new(), loc(222));
    let lone = func(&mut m, "stake");
    let lb = block(&mut m, lone, "start");
    call(&mut m, lb, insert, Vec::new(), loc(223));
    let m = finish(m);
    let mut w = writer();
    storage_gas(&m, &mut w);
    assert_eq!(w.lines, vec!["add_entry@True".to_string(), "stake@False".to_string()]);
}

#[test]
fn prepaid_gas_looks_for_a_comparison_of_the_gas() {
    let mut m = module();
    let gas = func(&mut m, "_ZN8near_sdk11environment3env11prepaid_gas17h00E");
    let ord = func(&mut m, "_ZN4core3cmp10PartialOrd2lt17h00E");
    let name = "near_contract_standards..fungible_token..core..FungibleTokenCore$u20$for$u20$Token$GT$16ft_transfer_call17h00E";
    let f = func(&mut m, name);
    let b = block(&mut m, f, "start");
    let g = call(&mut m, b, gas, Vec::new(), loc(230));
    call(&mut m, b, ord, vec![g], loc(231));
    let m = finish(m);
    let mut w = writer();
    prepaid_gas(&m, &mut w);
    assert_eq!(w.lines, vec![format!("{}@True", name)]);
}

#[test]
fn struct_member_reports_reads_and_writes() {
    let mut m = module();
    let f = func(&mut m, "stake");
    let b = block(&mut m, f, "start");
    let base = value(&mut m, "pool", ptr_ty("%\"staking::StakingPool\"*"), ValueKind::Other);
    let gep = inst(&mut m, b, Opcode::GetElementPtr, vec![base], loc(240));
    if let ValueKind::Instruction(i) = &mut m.values[gep].kind {
        i.gep_source_type = "%\"staking::StakingPool\" = type { i128 }".to_string();
    }
    inst(&mut m, b, Opcode::Load, vec![gep], loc(241));
    let cast = inst(&mut m, b, Opcode::BitCast, vec![base], loc(242));
    let zero = const_int(&mut m, 0);
    inst(&mut m, b, Opcode::Store, vec![zero, cast], loc(243));
    let m = finish(m);
    let found = struct_member(&m, &vec!["staking::StakingPool".to_string(), "\"staking::StakingPool\"".to_string()]);
    assert_eq!(found.len(), 2);
    assert_eq!(found[0].name, "staking::StakingPool");
    assert_eq!(found[0].mode, Mode::Read);
    assert_eq!(found[0].line, 240);
    assert_eq!(found[1].name, "\"staking::StakingPool\"");
    assert_eq!(found[1].mode, Mode::Write);
    assert_eq!(found[1].filename, SRC);
}

#[test]
fn unclaimed_storage_fee_looks_for_balance_compare() {
    let mut m = module();
    let f = func(&mut m, "_ZN5token18storage_unregister17h00E");
    let b = block(&mut m, f, "start");
    let bal = value(&mut m, "balance", int_ty(128), ValueKind::Other);
    let zero = value(&mut m, "", int_ty(128), ValueKind::ConstantInt(0));
    let c = inst(&mut m, b, Opcode::ICmp, vec![bal, zero], loc(250));
    if let ValueKind::Instruction(i) = &mut m.values[c].kind {
        i.predicate = Some(IntPredicate::Eq);
    }
    let g = func(&mut m, "_ZN5other18storage_unregister17h00E");
    let gb = block(&mut m, g, "start");
    ret(&mut m, gb);
    let m = finish(m);
    let mut w = writer();
    unclaimed_storage_fee(&m, &mut w);
    assert_eq!(
        w.lines,
        vec!["_ZN5token18storage_unregister17h00E@True".to_string(), "_ZN5other18storage_unregister17h00E@False".to_string()]
    );
}

#[test]
fn reentrancy_reports_store_in_success_branch() {
    let mut m = module();
    let pr = func(&mut m, PROMISE_RESULT);
    let f = func(&mut m, "on_swap_complete");
    let this = param(&mut m, f, "self");
    let entry = block(&mut m, f, "start");
    let ok = block(&mut m, f, "bb1");
    let fail = block(&mut m, f, "bb2");
    let res = inst(&mut m, entry, Opcode::Alloca, Vec::new(), loc(259));
    call(&mut m, entry, pr, vec![res], loc(260));
    inst_full(&mut m, entry, Opcode::Br, vec![res], Vec::new(), None, vec![ok, fail], loc(261));
    let amount = value(&mut m, "amount", int_ty(128), ValueKind::Other);
    inst(&mut m, ok, Opcode::Store, vec![amount, this], loc(262));
    ret(&mut m, ok);
    ret(&mut m, fail);
    let m = finish(m);
    let mut w = writer();
    reentrancy(&m, &mut w);
    assert_eq!(w.lines, vec!["on_swap_complete@src/lib.rs@262".to_string()]);
}

#[test]
fn complex_loop_ignores_small_loops() {
    let mut m = module();
    let f = func(&mut m, "sum");
    let entry = block(&mut m, f, "start");
    let body = block(&mut m, f, "body");
    inst_full(&mut m, entry, Opcode::Br, Vec::new(), Vec::new(), None, vec![body], loc(270));
    inst(&mut m, body, Opcode::Add, Vec::new(), loc(271));
    inst_full(&mut m, body, Opcode::Br, Vec::new(), Vec::new(), None, vec![body], loc(272));
    let m = finish(m);
    let mut w = writer();
    complex_loop(&m, &mut w);
    assert!(w.lines.is_empty());
}

#[test]
fn complex_loop_reports_large_loops() {
    let mut m = module();
    let f = func(&mut m, "drain");
    let entry = block(&mut m, f, "start");
    let body = block(&mut m, f, "body");
    inst_full(&mut m, entry, Opcode::Br, Vec::new(), Vec::new(), None, vec![body], loc(280));
    for _ in 0..120 {
        inst(&mut m, body, Opcode::Add, Vec::new(), loc(281));
    }
    inst_full(&mut m, body, Opcode::Br, Vec::new(), Vec::new(), None, vec![body], loc(282));
    let m = finish(m);
    let mut w = writer();
    complex_loop(&m, &mut w);
    assert_eq!(w.lines, vec!["drain@src/lib.rs@281".to_string()]);
}

#[test]
fn detectors_skip_library_functions() {
    let mut m = module();
    let ts = func(&mut m, TIMESTAMP);
    let f = func(&mut m, "_ZN4core3fmt5write17h00E");
    let b = block(&mut m, f, "start");
    call(&mut m, b, ts, Vec::new(), loc(290));
    let m = finish(m);
    let mut w = writer();
    all_call(&m, &mut w);
    assert!(w.lines.is_empty());
}

#[test]
fn self_transfer_and_unregistered_receiver_on_plain_function() {
    let mut m = module();
    let name = "near_contract_standards..fungible_token..core..FungibleTokenCore$u20$for$u20$Token$GT$11ft_transfer17h00E";
    let f = func(&mut m, name);
    param(&mut m, f, "self");
    param(&mut m, f, "receiver_id");
    param(&mut m, f, "amount");
    let b = block(&mut m, f, "start");
    ret(&mut m, b);
    let m = finish(m);
    let mut w = writer();
    self_transfer(&m, &mut w);
    assert_eq!(w.lines, vec![format!("{}@False", name)]);
    let mut w2 = writer();
    unregistered_receiver(&m, &mut w2);
    assert_eq!(w2.lines, vec![format!("{}@False", name)]);
}

#[test]
fn nft_approval_check_on_plain_function() {
    let mut m = module();
    let f = func(&mut m, "_ZN6market12nft_transfer17h00E");
    let b = block(&mut m, f, "start");
    ret(&mut m, b);
    let m = finish(m);
    let mut w = writer();
    nft_approval_check(&m, &mut w);
    for line in &w.lines {
        assert!(line.starts_with("_ZN6market12nft_transfer17h00E@"));
    }
}

#[test]
fn nep_interface_reports_missing_functions() {
    let mut m = module();
    for name in ["_ZN5token11ft_transfer17h00E", "ft_total_supply", "_ZN5token13ft_balance_of17h00E"] {
        let f = func(&mut m, name);
        let b = block(&mut m, f, "start");
        ret(&mut m, b);
    }
    let m = finish(m);
    let mut w = writer();
    assert!(nep_interface(&vec![m], 141, &mut w));
    assert_eq!(w.lines, vec!["ft_transfer_call".to_string()]);
}

#[test]
fn nep_interface_reports_missing_resolver() {
    let mut m = module();
    let f = func(&mut m, "_ZN5token16ft_transfer_call17h00E");
    let b = block(&mut m, f, "start");
    ret(&mut m, b);
    let m = finish(m);
    let mut w = writer();
    assert!(nep_interface(&vec![m], 141, &mut w));
    assert_eq!(
        w.lines,
        vec![
            "ft_transfer".to_string(),
            "ft_total_supply".to_string(),
            "ft_balance_of".to_string(),
            "resolver of ft_transfer_call".to_string(),
        ]
    );
}

#[test]
fn nep_interface_rejects_unknown_id() {
    let m = finish(module());
    let mut w = writer();
    assert!(!nep_interface(&vec![m], 999, &mut w));
    assert!(w.lines.is_empty());
}

#[test]
fn closures_are_not_checked_for_owners() {
    let mut m = module();
    let dep = func(&mut m, DEPLOY);
    let f = func(&mut m, "_ZN6market3fee28_$u7b$$u7b$closure$u7d$$u7d$17h00E$closure$");
    let b = block(&mut m, f, "start");
    call(&mut m, b, dep, Vec::new(), loc(300));
    let m = finish(m);
    let mut w = writer();
    missing_owner_check(&m, &mut w);
    assert!(w.lines.is_empty());
}

#[test]
fn transitive_search_stops_at_llvm_intrinsics() {
    let mut m = module();
    let t = func(&mut m, TRANSFER);
    let intrinsic = func(&mut m, "llvm.helper");
    let ib = block(&mut m, intrinsic, "start");
    call(&mut m, ib, t, Vec::new(), loc(310));
    let f = func(&mut m, "withdraw");
    let b = block(&mut m, f, "start");
    call(&mut m, b, intrinsic, Vec::new(), loc(311));
    let m = finish(m);
    let mut w = writer();
    transfer(&m, &mut w);
    assert_eq!(w.lines, vec!["llvm.helper@src/lib.rs@310".to_string()]);
}

#[test]
fn find_function_callers_finds_every_caller_within_depth() {
    let mut m = module();
    let f = func(&mut m, "f");
    let a = func(&mut m, "a");
    let b = func(&mut m, "b");
    let c = func(&mut m, "c");
    let ba = block(&mut m, a, "start");
    call(&mut m, ba, f, Vec::new(), None);
    ret(&mut m, ba);
    let bb = block(&mut m, b, "start");
    call(&mut m, bb, a, Vec::new(), None);
    call(&mut m, bb, f, Vec::new(), None);
    ret(&mut m, bb);
    let bc = block(&mut m, c, "start");
    call(&mut m, bc, b, Vec::new(), None);
    ret(&mut m, bc);
    let bf = block(&mut m, f, "start");
    ret(&mut m, bf);
    let m = finish(m);
    assert_eq!(find_function_callers(&m, &FunctionRef(f), 0), vec![false, false, false, false]);
    assert_eq!(find_function_callers(&m, &FunctionRef(f), 1), vec![false, true, true, false]);
    assert_eq!(find_function_callers(&m, &FunctionRef(f), 2), vec![false, true, true, true]);
    assert_eq!(find_function_callers(&m, &FunctionRef(a), 2), vec![false, false, true, true]);
}

#[test]
fn sender_check_follows_the_receiver_through_many_offsets() {
    let mut m = module();
    let f = func(&mut m, "f");
    let g = func(&mut m, "g");
    let eq = func(&mut m, ACCOUNT_EQ);
    let ps: Vec<usize> = (0..4).map(|k| param(&mut m, f, &format!("p{}", k))).collect();
    let s = value(&mut m, "s", ptr_ty("%alloc::string::String*"), ValueKind::Other);
    m.functions[g].params.push(s);
    let c = const_int(&mut m, 0);
    let bf = block(&mut m, f, "start");
    call(&mut m, bf, f, vec![c, ps[0], c, c], None);
    call(&mut m, bf, f, vec![c, c, ps[1], c], None);
    call(&mut m, bf, f, vec![c, c, c, ps[2]], None);
    call(&mut m, bf, g, vec![ps[3]], None);
    ret(&mut m, bf);
    let bg = block(&mut m, g, "start");
    call(&mut m, bg, eq, vec![s, s], None);
    ret(&mut m, bg);
    let be = block(&mut m, eq, "start");
    ret(&mut m, be);
    let m = finish(m);
    assert!(has_sender_receiver_check(&m, &FunctionRef(f), 0));
    assert!(!has_sender_receiver_check(&m, &FunctionRef(f), 4));
}

#[test]
fn unregistered_receiver_standard_implementation_lets_receivers_through() {
    let mut m = module();
    let name = "near_contract_standards..fungible_token..core..FungibleTokenCore$u20$for$u20$near_contract_standards..fungible_token..core_impl..FungibleToken$GT$11ft_transfer17h00E";
    let f = func(&mut m, name);
    param(&mut m, f, "self");
    param(&mut m, f, "receiver_id");
    param(&mut m, f, "amount");
    let b = block(&mut m, f, "start");
    ret(&mut m, b);
    let m = finish(m);
    let mut w = writer();
    unregistered_receiver(&m, &mut w);
    assert_eq!(w.lines, vec![format!("{}@True", name)]);
}
