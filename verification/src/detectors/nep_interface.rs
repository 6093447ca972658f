//! nep_interface: does the contract implement every function a NEP standard
//! requires, and, for the transfer-call standards, a resolver of the
//! transfer call?
//!
//! Output lines: the name of each required function that is missing, and
//! `resolver of <transfer_call>` when the resolver is missing.
use vstd::prelude::*;
use std::collections::HashMap;
use crate::text::{chars_of, starts_with, str_strip_prefix, str_eq};
use crate::ir::{FunctionRef, InstructionRef, Module, all_below, all_instructions, fn_insts, value_users};
use crate::output::{TmpWriter, decimal, digit_char, push_decimal};
use crate::patterns::{is_lib_func, is_match, pattern_matches};
use crate::users::{users_of, users_spec};
use super::common::{is_lib_name, first_index, lemma_first_index, lemma_first_index_none};

verus! {

pub open spec fn digit_value(c: char) -> nat {
    ((c as u32) - ('0' as u32)) as nat
}

pub open spec fn is_digit(c: char) -> bool {
    '0' <= c && c <= '9'
}

/// The number written by the decimal digits `d`.
pub open spec fn digits_value(d: Seq<char>) -> nat
    decreases d.len(),
{
    if d.len() == 0 {
        0
    } else {
        digits_value(d.drop_last()) * 10 + digit_value(d.last())
    }
}

/// `s` without a leading `+` sign (kept when it is all of `s`).
pub open spec fn unsigned_digits(s: Seq<char>) -> Seq<char> {
    if s.len() >= 2 && s[0] == '+' {
        s.skip(1)
    } else {
        s
    }
}

pub open spec fn all_digits(d: Seq<char>) -> bool {
    forall|k: int| 0 <= k < d.len() ==> is_digit(#[trigger] d[k])
}

/// `s` parsed as a `u32` the way `str::parse::<u32>` parses it: an optional
/// `+`, then one or more decimal digits, with a value that fits in 32 bits.
pub open spec fn parse_u32_spec(s: Seq<char>) -> Option<u32> {
    let d = unsigned_digits(s);
    if d.len() > 0 && all_digits(d) && digits_value(d) <= u32::MAX {
        Some(digits_value(d) as u32)
    } else {
        None
    }
}

proof fn lemma_digits_value_grows(d: Seq<char>, j: int)
    requires
        0 <= j <= d.len(),
        forall|k: int| 0 <= k < d.len() ==> is_digit(#[trigger] d[k]),
    ensures
        digits_value(d.take(j)) <= digits_value(d),
    decreases d.len() - j,
{
    if j < d.len() {
        lemma_digits_value_grows(d, j + 1);
        assert(d.take(j + 1).drop_last() =~= d.take(j));
        assert(d.take(j + 1).last() == d[j]);
    } else {
        assert(d.take(j) =~= d);
    }
}

/// Parses `s` as `str::parse::<u32>` does; `None` where that gives an error.
pub fn parse_u32(s: &str) -> (r: Option<u32>)
    ensures
        r == parse_u32_spec(s@),
{
    let cs = chars_of(s);
    let n = cs.len();
    let start: usize = if n >= 2 && cs[0] == '+' {
        1
    } else {
        0
    };
    let ghost d = unsigned_digits(s@);
    assert(d =~= cs@.subrange(start as int, n as int));
    if start == n {
        return None;
    }
    let mut acc: u64 = 0;
    let mut k: usize = start;
    while k < n
        invariant
            cs@ == s@,
            n == cs@.len(),
            start <= k <= n,
            d =~= cs@.subrange(start as int, n as int),
            d == unsigned_digits(s@),
            forall|j: int| 0 <= j < k - start ==> is_digit(#[trigger] d[j]),
            acc == digits_value(d.take(k - start)),
            acc <= u32::MAX,
        decreases n - k,
    {
        let c = cs[k];
        assert(d[k - start] == cs@[k as int]);
        if !('0' <= c && c <= '9') {
            assert(!is_digit(d[k - start]));
            assert(!all_digits(d));
            return None;
        }
        let v: u64 = (c as u32 - '0' as u32) as u64;
        assert(d.take(k - start + 1).drop_last() =~= d.take(k - start));
        assert(d.take(k - start + 1).last() == c);
        assert(v == digit_value(c));
        acc = acc * 10 + v;
        k += 1;
        assert(acc == digits_value(d.take(k - start)));
        if acc > 0xffff_ffff {
            proof {
                if all_digits(d) {
                    lemma_digits_value_grows(d, k - start);
                }
            }
            return None;
        }
    }
    assert(d.take(n - start) =~= d);
    Some(acc as u32)
}

proof fn lemma_decimal_digits(n: nat)
    ensures
        decimal(n).len() >= 1,
        all_digits(decimal(n)),
        digits_value(decimal(n)) == n,
    decreases n,
{
    let d = decimal(n);
    if n < 10 {
        assert(d == seq![digit_char(n as int)]);
        assert(d.drop_last() =~= Seq::<char>::empty());
        assert(digit_value(digit_char(n as int)) == n) by {
            assert('0' as u32 == 48);
            assert('9' as u32 == 57);
        }
        assert(is_digit(d[0]));
        assert(digits_value(d.drop_last()) == 0);
        assert(d.last() == digit_char(n as int));
        assert(digits_value(d) == digits_value(d.drop_last()) * 10 + digit_value(d.last()));
    } else {
        lemma_decimal_digits(n / 10);
        let p = decimal(n / 10);
        let c = digit_char((n % 10) as int);
        assert(d == p.push(c));
        assert(d.drop_last() =~= p);
        assert(digit_value(c) == n % 10);
        assert(is_digit(c));
        assert((n / 10) * 10 + n % 10 == n) by (nonlinear_arith);
        assert(digits_value(d) == digits_value(p) * 10 + digit_value(c));
        assert forall|k: int| 0 <= k < d.len() implies is_digit(#[trigger] d[k]) by {
            if k < p.len() {
                assert(d[k] == p[k]);
            }
        }
    }
}

/// `parse_u32` reads back what `to_decimal` writes: the decimal form of any
/// `u32` parses to that number.
pub proof fn lemma_parse_decimal(n: u32)
    ensures
        parse_u32_spec(decimal(n as nat)) == Some(n),
{
    lemma_decimal_digits(n as nat);
    let d = decimal(n as nat);
    assert(is_digit(d[0]));
    assert(unsigned_digits(d) == d);
}

pub open spec fn long_eq_flag() -> Seq<char> {
    seq!['-', '-', 'n', 'e', 'p', '-', 'i', 'd', '=']
}

pub open spec fn short_eq_flag() -> Seq<char> {
    seq!['-', 'n', 'e', 'p', '-', 'i', 'd', '=']
}

pub open spec fn long_flag() -> Seq<char> {
    seq!['-', '-', 'n', 'e', 'p', '-', 'i', 'd']
}

pub open spec fn short_flag() -> Seq<char> {
    seq!['-', 'n', 'e', 'p', '-', 'i', 'd']
}

/// The NEP id given from argument `i` on: the first argument that is
/// `--nep-id=<id>` or `-nep-id=<id>`, or `--nep-id`/`-nep-id` followed by
/// another argument, decides; the id is then parsed as a `u32`.
pub open spec fn nep_id_from(args: Seq<Seq<char>>, i: int) -> Option<u32>
    decreases args.len() - i,
{
    if i < 0 || i >= args.len() {
        None
    } else {
        let a = args[i];
        if starts_with(a, long_eq_flag()) {
            parse_u32_spec(a.skip(long_eq_flag().len() as int))
        } else if starts_with(a, short_eq_flag()) {
            parse_u32_spec(a.skip(short_eq_flag().len() as int))
        } else if (a == long_flag() || a == short_flag()) && i + 1 < args.len() {
            parse_u32_spec(args[i + 1])
        } else {
            nep_id_from(args, i + 1)
        }
    }
}

/// The arguments as character sequences.
pub open spec fn args_view(args: Seq<String>) -> Seq<Seq<char>> {
    args.map_values(|s: String| s@)
}

/// The NEP id in the command line `args`: `--nep-id=<id>`, `-nep-id=<id>`,
/// `--nep-id <id>` or `-nep-id <id>`, the first of these deciding.
pub fn parse_nep_id(args: &[String]) -> (r: Option<u32>)
    ensures
        r == nep_id_from(args_view(args@), 0),
{
    proof {
        reveal_strlit("--nep-id=");
        reveal_strlit("-nep-id=");
        reveal_strlit("--nep-id");
        reveal_strlit("-nep-id");
    }
    let ghost av = args_view(args@);
    assert("--nep-id="@ =~= long_eq_flag());
    assert("-nep-id="@ =~= short_eq_flag());
    assert("--nep-id"@ =~= long_flag());
    assert("-nep-id"@ =~= short_flag());
    let n = args.len();
    let mut i: usize = 0;
    while i < n
        invariant
            n == args@.len(),
            av == args_view(args@),
            "--nep-id="@ == long_eq_flag(),
            "-nep-id="@ == short_eq_flag(),
            "--nep-id"@ == long_flag(),
            "-nep-id"@ == short_flag(),
            i <= n,
            nep_id_from(av, i as int) == nep_id_from(av, 0),
        decreases n - i,
    {
        let arg = args[i].as_str();
        assert(arg@ == av[i as int]);
        match str_strip_prefix(arg, "--nep-id=") {
            Some(val) => {
                return parse_u32(val);
            },
            None => {},
        }
        match str_strip_prefix(arg, "-nep-id=") {
            Some(val) => {
                return parse_u32(val);
            },
            None => {},
        }
        if (str_eq(arg, "--nep-id") || str_eq(arg, "-nep-id")) && i + 1 < n {
            assert(args[i as int + 1]@ == av[i + 1]);
            return parse_u32(args[i + 1].as_str());
        }
        i += 1;
    }
    None
}

/// Argument `a` names a bitcode file: it is not an option and not a number.
pub open spec fn bitcode_arg(a: Seq<char>) -> Option<Seq<char>> {
    if !(a.len() > 0 && a[0] == '-') && parse_u32_spec(a) is None {
        Some(a)
    } else {
        None
    }
}

/// The arguments after the program name.
pub open spec fn after_program(args: Seq<Seq<char>>) -> Seq<Seq<char>> {
    if args.len() == 0 {
        args
    } else {
        args.skip(1)
    }
}

/// The bitcode files in the command line `args` (the program name skipped):
/// the arguments that are neither options nor numbers.
pub fn bitcode_files(args: &[String]) -> (r: Vec<String>)
    ensures
        args_view(r@) == after_program(args_view(args@)).filter_map(|a: Seq<char>| bitcode_arg(a)),
{
    let ghost av = after_program(args_view(args@));
    let ghost f = |a: Seq<char>| bitcode_arg(a);
    let mut r: Vec<String> = Vec::new();
    let n = args.len();
    if n == 0 {
        assert(av =~= Seq::<Seq<char>>::empty());
        assert(args_view(r@) =~= av.filter_map(f));
        return r;
    }
    assert(args_view(r@) =~= av.take(0).filter_map(f));
    for k in 1..n
        invariant
            n == args@.len(),
            n >= 1,
            av == args_view(args@).skip(1),
            av == after_program(args_view(args@)),
            f == (|a: Seq<char>| bitcode_arg(a)),
            args_view(r@) == av.take(k - 1).filter_map(f),
    {
        proof {
            av.lemma_filter_map_take_succ(f, k - 1);
        }
        let a = &args[k];
        assert(a@ == av[k - 1]);
        let cs = chars_of(a.as_str());
        if !(cs.len() > 0 && cs[0] == '-') && parse_u32(a.as_str()).is_none() {
            let ghost before = r@;
            r.push(a.clone());
            assert(args_view(r@) =~= args_view(before).push(a@));
        }
        assert(args_view(r@) =~= av.take(k as int).filter_map(f));
    }
    assert(av.take(n - 1) =~= av);
    r
}

/// The functions each NEP standard requires, by NEP id; `None` for an id
/// with no entry.
pub open spec fn nep_required(id: u32) -> Option<Seq<Seq<char>>> {
    match id {
        141 => Some(seq!["ft_transfer"@, "ft_transfer_call"@, "ft_total_supply"@, "ft_balance_of"@]),
        145 => Some(seq!["storage_deposit"@, "storage_withdraw"@, "storage_unregister"@, "storage_balance_bounds"@, "storage_balance_of"@]),
        148 => Some(seq!["ft_metadata"@]),
        171 => Some(seq!["nft_transfer"@, "nft_transfer_call"@, "nft_token"@]),
        177 => Some(seq!["nft_metadata"@]),
        178 => Some(seq!["nft_approve"@, "nft_revoke"@, "nft_revoke_all"@, "nft_is_approved"@]),
        181 => Some(seq!["nft_total_supply"@, "nft_tokens"@, "nft_supply_for_owner"@, "nft_tokens_for_owner"@]),
        199 => Some(Seq::empty()),
        245 => Some(seq!["mt_transfer"@, "mt_batch_transfer"@, "mt_transfer_call"@, "mt_batch_transfer_call"@, "mt_token"@, "mt_balance_of"@, "mt_batch_balance_of"@, "mt_supply"@, "mt_batch_supply"@]),
        246 => Some(Seq::empty()),
        330 => Some(Seq::empty()),
        _ => None,
    }
}

/// The interfaces of the NEP standards: the functions each requires, by
/// name, and no entry for any other id.
pub proof fn lemma_nep_interfaces(id: u32)
    ensures
        nep_required(141) == Some(seq!["ft_transfer"@, "ft_transfer_call"@, "ft_total_supply"@, "ft_balance_of"@]),
        nep_required(145) == Some(seq!["storage_deposit"@, "storage_withdraw"@, "storage_unregister"@,
            "storage_balance_bounds"@, "storage_balance_of"@]),
        nep_required(148) == Some(seq!["ft_metadata"@]),
        nep_required(171) == Some(seq!["nft_transfer"@, "nft_transfer_call"@, "nft_token"@]),
        nep_required(177) == Some(seq!["nft_metadata"@]),
        nep_required(178) == Some(seq!["nft_approve"@, "nft_revoke"@, "nft_revoke_all"@, "nft_is_approved"@]),
        nep_required(181) == Some(seq!["nft_total_supply"@, "nft_tokens"@, "nft_supply_for_owner"@,
            "nft_tokens_for_owner"@]),
        nep_required(199) == Some(Seq::<Seq<char>>::empty()),
        nep_required(245) == Some(seq!["mt_transfer"@, "mt_batch_transfer"@, "mt_transfer_call"@,
            "mt_batch_transfer_call"@, "mt_token"@, "mt_balance_of"@, "mt_batch_balance_of"@, "mt_supply"@,
            "mt_batch_supply"@]),
        nep_required(246) == Some(Seq::<Seq<char>>::empty()),
        nep_required(330) == Some(Seq::<Seq<char>>::empty()),
        id != 141 && id != 145 && id != 148 && id != 171 && id != 177 && id != 178 && id != 181 && id != 199
            && id != 245 && id != 246 && id != 330 ==> nep_required(id) is None,
{
}

/// The views of a list of names.
pub open spec fn names_view(v: Seq<&str>) -> Seq<Seq<char>> {
    v.map_values(|s: &str| s@)
}

/// The functions NEP `id` requires, when the id has an entry.
pub fn required_funcs(id: u32) -> (r: Option<Vec<&'static str>>)
    ensures
        match r {
            Some(v) => nep_required(id) == Some(names_view(v@)),
            None => nep_required(id) is None,
        },
{
    let mut v: Vec<&'static str> = Vec::new();
    match id {
        141 => {
            v.push("ft_transfer");
            v.push("ft_transfer_call");
            v.push("ft_total_supply");
            v.push("ft_balance_of");
        },
        145 => {
            v.push("storage_deposit");
            v.push("storage_withdraw");
            v.push("storage_unregister");
            v.push("storage_balance_bounds");
            v.push("storage_balance_of");
        },
        148 => {
            v.push("ft_metadata");
        },
        171 => {
            v.push("nft_transfer");
            v.push("nft_transfer_call");
            v.push("nft_token");
        },
        177 => {
            v.push("nft_metadata");
        },
        178 => {
            v.push("nft_approve");
            v.push("nft_revoke");
            v.push("nft_revoke_all");
            v.push("nft_is_approved");
        },
        181 => {
            v.push("nft_total_supply");
            v.push("nft_tokens");
            v.push("nft_supply_for_owner");
            v.push("nft_tokens_for_owner");
        },
        199 => {
        },
        245 => {
            v.push("mt_transfer");
            v.push("mt_batch_transfer");
            v.push("mt_transfer_call");
            v.push("mt_batch_transfer_call");
            v.push("mt_token");
            v.push("mt_balance_of");
            v.push("mt_batch_balance_of");
            v.push("mt_supply");
            v.push("mt_batch_supply");
        },
        246 => {
        },
        330 => {
        },
        _ => {
            return None;
        },
    }
    assert(names_view(v@) =~= nep_required(id).unwrap());
    Some(v)
}

/// The NEP ids that have an entry.
pub open spec fn known_nep(id: u32) -> bool {
    nep_required(id) is Some
}

/// The required functions of every NEP standard, by NEP id.
pub fn positional_funcs() -> (r: HashMap<u32, Vec<&'static str>>)
    ensures
        forall|id: u32| r@.contains_key(id) <==> known_nep(id),
        forall|id: u32| #[trigger] r@.contains_key(id) ==> nep_required(id) == Some(names_view(r@[id]@)),
{
    broadcast use vstd::std_specs::hash::group_hash_axioms;
    let mut m: HashMap<u32, Vec<&'static str>> = HashMap::new();
    let ids: [u32; 11] = [141, 145, 148, 171, 177, 178, 181, 199, 245, 246, 330];
    for k in 0..11usize
        invariant
            ids@ == seq![141u32, 145u32, 148u32, 171u32, 177u32, 178u32, 181u32, 199u32, 245u32, 246u32, 330u32],
            forall|id: u32| m@.contains_key(id) <==> exists|j: int| 0 <= j < k && ids@[j] == id,
            forall|id: u32| #[trigger] m@.contains_key(id) ==> nep_required(id) == Some(names_view(m@[id]@)),
    {
        let id = ids[k];
        let v = required_funcs(id).unwrap();
        m.insert(id, v);
    }
    m
}

/// The pattern a mangled symbol of required function `f` matches.
pub open spec fn positional_pattern(f: Seq<char>) -> Seq<char> {
    "[0-9]+"@ + f + "[0-9]+"@
}

/// Function name `name` implements required function `f`: it is `f`, or a
/// mangled symbol of it.
pub open spec fn name_implements(name: Seq<char>, f: Seq<char>) -> bool {
    name == f || pattern_matches(positional_pattern(f), name)
}

/// Some module has a non-library function implementing `f`.
pub open spec fn implemented(ms: Seq<Module>, f: Seq<char>) -> bool {
    exists|k: int, j: int|
        0 <= k < ms.len() && 0 <= j < ms[k].functions@.len() && !is_lib_name(&ms[k], j)
            && #[trigger] name_implements(ms[k].function_name(j), f)
}

/// The required functions that no module implements, in order.
pub open spec fn missing_lines(ms: Seq<Module>, required: Seq<Seq<char>>) -> Seq<Seq<char>> {
    required.filter_map(|f: Seq<char>| if implemented(ms, f) {
        None
    } else {
        Some(f)
    })
}

/// The patterns of the transfer call, of its `on_transfer` call and the label
/// of the resolver, for the NEPs that have a transfer call.
pub open spec fn resolver_pats(id: u32) -> Option<(Seq<char>, Seq<char>, Seq<char>)> {
    match id {
        141 => Some(("[0-9]+ft_transfer_call[0-9]+"@, "[0-9]+ft_on_transfer[0-9]+"@, "resolver of ft_transfer_call"@)),
        171 => Some(("[0-9]+nft_transfer_call[0-9]+"@, "[0-9]+nft_on_transfer[0-9]+"@, "resolver of nft_transfer_call"@)),
        245 => Some(("[0-9]+mt_transfer_call[0-9]+"@, "[0-9]+mt_on_transfer[0-9]+"@, "resolver of mt_transfer_call"@)),
        _ => None,
    }
}

fn resolver_patterns(id: u32) -> (r: Option<(&'static str, &'static str, &'static str)>)
    ensures
        match r {
            Some((a, b, c)) => resolver_pats(id) == Some((a@, b@, c@)),
            None => resolver_pats(id) is None,
        },
{
    match id {
        141 => Some(("[0-9]+ft_transfer_call[0-9]+", "[0-9]+ft_on_transfer[0-9]+", "resolver of ft_transfer_call")),
        171 => Some(("[0-9]+nft_transfer_call[0-9]+", "[0-9]+nft_on_transfer[0-9]+", "resolver of nft_transfer_call")),
        245 => Some(("[0-9]+mt_transfer_call[0-9]+", "[0-9]+mt_on_transfer[0-9]+", "resolver of mt_transfer_call")),
        _ => None,
    }
}

pub open spec fn then_pattern() -> Seq<char> {
    "near_sdk[0-9]+promise[0-9]+Promise[0-9]+then"@
}

/// The name of the function `u` calls directly, or the empty name.
pub open spec fn callee_name_or_empty(m: &Module, u: int) -> Seq<char> {
    match m.called_fn_name(u) {
        Some(n) => n,
        None => Seq::empty(),
    }
}

/// `u` is a `Promise::then` call whose last argument (the callback promise)
/// is used by another call.
pub open spec fn resolves(m: &Module, u: int) -> bool {
    &&& m.is_call(u)
    &&& pattern_matches(then_pattern(), callee_name_or_empty(m, u))
    &&& m.args(u).len() > 0
    &&& exists|i: int|
        0 <= i < users_list(m, m.args(u).last() as int).len()
            && #[trigger] other_call(m, users_list(m, m.args(u).last() as int)[i] as int, u)
}

/// The direct users of value `v`.
pub open spec fn users_list(m: &Module, v: int) -> Seq<usize> {
    m.values[v].users@
}

/// `r` is a call other than `u`.
pub open spec fn other_call(m: &Module, r: int, u: int) -> bool {
    m.is_call(r) && r != u
}

/// `v` calls an `on_transfer` function, and some user of its first argument
/// chains a resolver with `then`.
pub open spec fn inst_has_resolver(m: &Module, v: int, on_pat: Seq<char>) -> bool {
    &&& m.called_fn_name(v) matches Some(n)
    &&& pattern_matches(on_pat, n)
    &&& m.args(v).len() > 0
    &&& exists|u: int|
        0 <= u < m.values@.len() && #[trigger] users_spec(m, m.args(v)[0] as int, false, false)[u]
            && resolves(m, u)
}

/// Some instruction of `f` chains a resolver after an `on_transfer` call.
pub open spec fn has_resolver(m: &Module, f: int, on_pat: Seq<char>) -> bool {
    exists|k: int| 0 <= k < fn_insts(m, f).len() && #[trigger] inst_has_resolver(m, fn_insts(m, f)[k] as int, on_pat)
}

/// For the first function of `m` matching `call_pat`: whether it has a
/// resolver. `None` when no function matches.
pub open spec fn module_resolver(m: &Module, call_pat: Seq<char>, on_pat: Seq<char>) -> Option<bool> {
    match first_index(m.functions@.len() as int, |j: int| pattern_matches(call_pat, m.function_name(j))) {
        Some(j) => Some(has_resolver(m, j, on_pat)),
        None => None,
    }
}

/// `module_resolver` of the first module, from `k` on, that has a matching function.
pub open spec fn resolver_from(ms: Seq<Module>, call_pat: Seq<char>, on_pat: Seq<char>, k: int) -> Option<bool>
    decreases ms.len() - k,
{
    if k < 0 || k >= ms.len() {
        None
    } else {
        match module_resolver(&ms[k], call_pat, on_pat) {
            Some(b) => Some(b),
            None => resolver_from(ms, call_pat, on_pat, k + 1),
        }
    }
}

/// The resolver line: recorded when the first transfer-call function has no
/// resolver.
pub open spec fn resolver_lines(ms: Seq<Module>, id: u32) -> Seq<Seq<char>> {
    match resolver_pats(id) {
        Some((call, on, label)) => if resolver_from(ms, call, on, 0) == Some(false) {
            seq![label]
        } else {
            Seq::empty()
        },
        None => Seq::empty(),
    }
}

/// The lines recorded for NEP `id`.
pub open spec fn nep_interface_lines(ms: Seq<Module>, id: u32) -> Seq<Seq<char>> {
    match nep_required(id) {
        Some(req) => missing_lines(ms, req) + resolver_lines(ms, id),
        None => Seq::empty(),
    }
}

/// The output name of the detector for NEP `id`: `nep<id>-interface`.
pub open spec fn nep_detector_name_spec(id: u32) -> Seq<char> {
    "nep"@ + decimal(id as nat) + "-interface"@
}

/// The output name of the detector for NEP `id`: `nep<id>-interface`.
pub fn nep_detector_name(id: u32) -> (r: String)
    ensures
        r@ == nep_detector_name_spec(id),
{
    let mut s = String::from_str("nep");
    push_decimal(&mut s, id);
    s.append("-interface");
    s
}

fn implemented_exec(ms: &Vec<Module>, f: &str) -> (r: bool)
    requires
        forall|k: int| 0 <= k < ms@.len() ==> (#[trigger] ms@[k]).wf(),
    ensures
        r == implemented(ms@, f@),
{
    let mut pat = String::from_str("[0-9]+");
    pat.append(f);
    pat.append("[0-9]+");
    assert(pat@ == positional_pattern(f@));
    let nm = ms.len();
    for k in 0..nm
        invariant
            nm == ms@.len(),
            pat@ == positional_pattern(f@),
            forall|k: int| 0 <= k < ms@.len() ==> (#[trigger] ms@[k]).wf(),
            forall|a: int, j: int|
                0 <= a < k && 0 <= j < ms@[a].functions@.len() && !is_lib_name(&ms@[a], j)
                    ==> !#[trigger] name_implements(ms@[a].function_name(j), f@),
    {
        let m = &ms[k];
        let nf = m.functions.len();
        for j in 0..nf
            invariant
                nm == ms@.len(),
                k < nm,
                *m == ms@[k as int],
                m.wf(),
                nf == m.functions@.len(),
                pat@ == positional_pattern(f@),
                forall|k: int| 0 <= k < ms@.len() ==> (#[trigger] ms@[k]).wf(),
                forall|a: int, j: int|
                    0 <= a < k && 0 <= j < ms@[a].functions@.len() && !is_lib_name(&ms@[a], j)
                        ==> !#[trigger] name_implements(ms@[a].function_name(j), f@),
                forall|i: int|
                    0 <= i < j && !is_lib_name(m, i) ==> !#[trigger] name_implements(m.function_name(i), f@),
        {
            let name = FunctionRef(j).name(m);
            if !is_lib_func(name) && (str_eq(name, f) || is_match(pat.as_str(), name)) {
                assert(name_implements(ms@[k as int].function_name(j as int), f@));
                return true;
            }
        }
    }
    false
}

fn resolves_exec(m: &Module, u: usize) -> (r: bool)
    requires
        m.wf(),
        u < m.values@.len(),
    ensures
        r == resolves(m, u as int),
{
    let ui = InstructionRef(u);
    if !ui.is_call(m) {
        return false;
    }
    let callee = match ui.called_fn_name(m) {
        Some(n) => n,
        None => "",
    };
    proof {
        reveal_strlit("");
    }
    assert(callee@ == callee_name_or_empty(m, u as int));
    if !is_match("near_sdk[0-9]+promise[0-9]+Promise[0-9]+then", callee) {
        return false;
    }
    let na = ui.num_args(m);
    if na == 0 {
        return false;
    }
    let last = ui.get_arg(m, na - 1);
    assert(last == m.args(u as int).last());
    let us = value_users(m, last);
    assert(m.value_wf(last as int));
    let n = us.len();
    for i in 0..n
        invariant
            m.wf(),
            n == us@.len(),
            us@ == m.values@[last as int].users@,
            all_below(us@, m.nvalues()),
            last == m.args(u as int).last(),
            m.args(u as int).len() > 0,
            m.is_call(u as int),
            pattern_matches(then_pattern(), callee_name_or_empty(m, u as int)),
            us@ == users_list(m, last as int),
            forall|j: int| 0 <= j < i ==> !#[trigger] other_call(m, us@[j] as int, u as int),
    {
        let ru = us[i];
        if InstructionRef(ru).is_call(m) && ru != u {
            assert(other_call(m, users_list(m, m.args(u as int).last() as int)[i as int] as int, u as int));
            return true;
        }
    }
    false
}

fn inst_has_resolver_exec(m: &Module, inst: &InstructionRef, on_pat: &str) -> (r: bool)
    requires
        m.wf(),
        inst.0 < m.values@.len(),
    ensures
        r == inst_has_resolver(m, inst.0 as int, on_pat@),
{
    let callee = match inst.called_fn_name(m) {
        Some(n) => n,
        None => {
            return false;
        },
    };
    if !is_match(on_pat, callee) {
        return false;
    }
    if inst.num_args(m) == 0 {
        return false;
    }
    let arg0 = inst.get_arg(m, 0);
    let set = users_of(m, arg0, false, false);
    let n = set.len();
    for u in 0..n
        invariant
            m.wf(),
            n == m.values@.len(),
            set@ == users_spec(m, arg0 as int, false, false),
            set@.len() == n,
            m.args(inst.0 as int).len() > 0,
            arg0 == m.args(inst.0 as int)[0],
            m.called_fn_name(inst.0 as int) == Some(callee@),
            pattern_matches(on_pat@, callee@),
            forall|j: int| 0 <= j < u ==> !(#[trigger] users_spec(m, arg0 as int, false, false)[j] && resolves(m, j)),
    {
        if set[u] && resolves_exec(m, u) {
            assert(users_spec(m, m.args(inst.0 as int)[0] as int, false, false)[u as int]);
            return true;
        }
    }
    false
}

fn has_resolver_exec(m: &Module, func: &FunctionRef, on_pat: &str) -> (r: bool)
    requires
        m.wf(),
        func.0 < m.functions@.len(),
    ensures
        r == has_resolver(m, func.0 as int, on_pat@),
{
    let insts = all_instructions(m, func);
    let ghost is = fn_insts(m, func.0 as int);
    let n = insts.len();
    for k in 0..n
        invariant
            m.wf(),
            n == insts@.len(),
            n == is.len(),
            is == fn_insts(m, func.0 as int),
            forall|j: int| 0 <= j < n ==> (#[trigger] insts@[j]).0 == is[j],
            forall|j: int| 0 <= j < n ==> (#[trigger] insts@[j]).0 < m.values@.len(),
            forall|j: int| 0 <= j < k ==> !#[trigger] inst_has_resolver(m, is[j] as int, on_pat@),
    {
        let inst = &insts[k];
        assert(inst.0 == is[k as int]);
        if inst_has_resolver_exec(m, inst, on_pat) {
            return true;
        }
    }
    false
}

fn module_resolver_exec(m: &Module, call_pat: &str, on_pat: &str) -> (r: Option<bool>)
    requires
        m.wf(),
    ensures
        r == module_resolver(m, call_pat@, on_pat@),
{
    let ghost p = |j: int| pattern_matches(call_pat@, m.function_name(j));
    let nf = m.functions.len();
    for j in 0..nf
        invariant
            m.wf(),
            nf == m.functions@.len(),
            p == (|j: int| pattern_matches(call_pat@, m.function_name(j))),
            forall|i: int| 0 <= i < j ==> !#[trigger] p(i),
    {
        let func = FunctionRef(j);
        if is_match(call_pat, func.name(m)) {
            proof {
                lemma_first_index(nf as int, p, j as int);
            }
            return Some(has_resolver_exec(m, &func, on_pat));
        }
    }
    proof {
        lemma_first_index_none(nf as int, p);
    }
    None
}

fn resolver_from_exec(ms: &Vec<Module>, call_pat: &str, on_pat: &str) -> (r: Option<bool>)
    requires
        forall|k: int| 0 <= k < ms@.len() ==> (#[trigger] ms@[k]).wf(),
    ensures
        r == resolver_from(ms@, call_pat@, on_pat@, 0),
{
    let nm = ms.len();
    let mut k: usize = 0;
    while k < nm
        invariant
            nm == ms@.len(),
            k <= nm,
            forall|k: int| 0 <= k < ms@.len() ==> (#[trigger] ms@[k]).wf(),
            resolver_from(ms@, call_pat@, on_pat@, k as int) == resolver_from(ms@, call_pat@, on_pat@, 0),
        decreases nm - k,
    {
        match module_resolver_exec(&ms[k], call_pat, on_pat) {
            Some(b) => {
                return Some(b);
            },
            None => {},
        }
        k += 1;
    }
    None
}

/// Records the functions NEP `nep_id` requires that no module implements,
/// and, for a transfer-call NEP, a missing resolver. Returns false, recording
/// nothing, when the NEP id has no entry.
pub fn nep_interface(modules: &Vec<Module>, nep_id: u32, w: &mut TmpWriter) -> (r: bool)
    requires
        forall|k: int| 0 <= k < modules@.len() ==> (#[trigger] modules@[k]).wf(),
    ensures
        r == known_nep(nep_id),
        final(w).lines_view() == old(w).lines_view() + nep_interface_lines(modules@, nep_id),
        final(w).detector == old(w).detector,
{
    let required = match required_funcs(nep_id) {
        Some(v) => v,
        None => {
            assert(old(w).lines_view() + Seq::<Seq<char>>::empty() =~= old(w).lines_view());
            return false;
        },
    };
    let ghost req = names_view(required@);
    let ghost f = |x: Seq<char>| if implemented(modules@, x) {
        None
    } else {
        Some(x)
    };
    let n = required.len();
    assert(old(w).lines_view() + req.take(0).filter_map(f) =~= old(w).lines_view());
    for k in 0..n
        invariant
            n == required@.len(),
            req == names_view(required@),
            f == (|x: Seq<char>| if implemented(modules@, x) {
                None
            } else {
                Some(x)
            }),
            forall|k: int| 0 <= k < modules@.len() ==> (#[trigger] modules@[k]).wf(),
            w.lines_view() == old(w).lines_view() + req.take(k as int).filter_map(f),
            w.detector == old(w).detector,
    {
        proof {
            req.lemma_filter_map_take_succ(f, k as int);
        }
        let name = required[k];
        assert(name@ == req[k as int]);
        let ghost before = w.lines_view();
        if !implemented_exec(modules, name) {
            w.write_name(name);
        }
        assert(w.lines_view() =~= old(w).lines_view() + req.take(k + 1).filter_map(f));
    }
    assert(req.take(n as int) =~= req);
    let ghost after_missing = w.lines_view();
    match resolver_patterns(nep_id) {
        Some((call_pat, on_pat, label)) => {
            match resolver_from_exec(modules, call_pat, on_pat) {
                Some(false) => {
                    w.write_name(label);
                    assert(w.lines_view() =~= after_missing + seq![label@]);
                },
                _ => {
                    assert(w.lines_view() =~= after_missing + Seq::<Seq<char>>::empty());
                },
            }
        },
        None => {
            assert(w.lines_view() =~= after_missing + Seq::<Seq<char>>::empty());
        },
    }
    assert(w.lines_view() =~= old(w).lines_view() + nep_interface_lines(modules@, nep_id));
    true
}

} // verus!
