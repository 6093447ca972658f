//! The symbol and path patterns the detectors look for, and regular-expression
//! matching through the `regex` crate.
use vstd::prelude::*;

verus! {

/// Whether `regex::Regex::new` accepts `pattern` (with the default size limits).
pub uninterp spec fn regex_compiles(pattern: Seq<char>) -> bool;

/// What `regex::Regex::is_match` answers for the regex compiled from `pattern`
/// on `text`: some substring of `text` matches `pattern`.
pub uninterp spec fn regex_finds(pattern: Seq<char>, text: Seq<char>) -> bool;

/// Compiles `pattern` with `regex::Regex::new` and, when that succeeds, answers
/// `regex::Regex::is_match` on `text`. Both results depend on the two strings
/// alone; neither call panics.
#[verifier::external_body]
fn regex_is_match(pattern: &str, text: &str) -> (r: Option<bool>)
    ensures
        r is Some <==> regex_compiles(pattern@),
        r matches Some(b) ==> b == regex_finds(pattern@, text@),
{
    match regex::Regex::new(pattern) {
        Ok(re) => Some(re.is_match(text)),
        Err(_) => None,
    }
}

/// `text` matches `pattern`; a pattern that does not compile matches nothing.
pub open spec fn pattern_matches(pattern: Seq<char>, text: Seq<char>) -> bool {
    regex_compiles(pattern) && regex_finds(pattern, text)
}

/// Whether `text` matches the regular expression `pattern`. A pattern that
/// does not compile matches nothing.
pub fn is_match(pattern: &str, text: &str) -> (r: bool)
    ensures
        r == pattern_matches(pattern@, text@),
{
    match regex_is_match(pattern, text) {
        Some(b) => b,
        None => false,
    }
}

/// The pattern of library symbols.
pub open spec fn lib_func_pattern() -> Seq<char> {
    r"(^/cargo)|(^/rustc)|(_ZN\d+(core|std|alloc|num_traits|solana_program|byteorder|hex|bytemuck|borsh|enumflags2|safe_transmute|thiserror)([0-9]+|\.\.)[a-zA-Z]+)|(serde\.\.de\.\.Deserialize)"@
}

/// The pattern of library source paths.
pub open spec fn lib_loc_pattern() -> Seq<char> {
    r"(^/rustc)|(^/cargo)|(^/root/\.cargo)|(^/home/.+/\.cargo)|(^/Users/.+/\.cargo)|(^$)"@
}

/// Pattern matching mangled symbols of library code (core, std, cargo, ...).
pub fn lib_func() -> (r: &'static str)
    ensures
        r@ == lib_func_pattern(),
{
    r"(^/cargo)|(^/rustc)|(_ZN\d+(core|std|alloc|num_traits|solana_program|byteorder|hex|bytemuck|borsh|enumflags2|safe_transmute|thiserror)([0-9]+|\.\.)[a-zA-Z]+)|(serde\.\.de\.\.Deserialize)"
}

/// Pattern matching source paths inside cargo or rustc caches, and the empty path.
pub fn lib_loc() -> (r: &'static str)
    ensures
        r@ == lib_loc_pattern(),
{
    r"(^/rustc)|(^/cargo)|(^/root/\.cargo)|(^/home/.+/\.cargo)|(^/Users/.+/\.cargo)|(^$)"
}

/// True if the mangled function symbol belongs to a library (core/std/cargo/...).
pub fn is_lib_func(name: &str) -> (r: bool)
    ensures
        r == pattern_matches(lib_func_pattern(), name@),
{
    is_match(lib_func(), name)
}

/// True if the source file path is inside cargo/rustc caches (library code), or empty.
pub fn is_lib_loc(filename: &str) -> (r: bool)
    ensures
        r == pattern_matches(lib_loc_pattern(), filename@),
{
    is_match(lib_loc(), filename)
}

/// Pattern matching Library rounding (`round`/`try_round`) in std.
pub fn round() -> (r: &'static str)
    ensures
        r@ == r"[0-9]+std[0-9]+.+[0-9]+(try_round|round)[0-9]+"@,
{
    r"[0-9]+std[0-9]+.+[0-9]+(try_round|round)[0-9]+"
}

/// Pattern matching `Promise::function_call` and `function_call_weight`.
pub fn ext_call() -> (r: &'static str)
    ensures
        r@ == r".+near_sdk[0-9]+promise[0-9]+Promise[0-9]+function_call(_weight)?[0-9]+"@,
{
    r".+near_sdk[0-9]+promise[0-9]+Promise[0-9]+function_call(_weight)?[0-9]+"
}

/// Pattern matching `Promise::transfer`.
pub fn promise_transfer() -> (r: &'static str)
    ensures
        r@ == r"near_sdk[0-9]+promise[0-9]+Promise[0-9]+transfer[0-9]+"@,
{
    r"near_sdk[0-9]+promise[0-9]+Promise[0-9]+transfer[0-9]+"
}

/// Pattern matching `ft_transfer` and `ft_transfer_call`.
pub fn nep141_transfer() -> (r: &'static str)
    ensures
        r@ == r"[0-9]+(ft_transfer(_call)?)[0-9]+"@,
{
    r"[0-9]+(ft_transfer(_call)?)[0-9]+"
}

/// Pattern matching Reading a promise result or checking its success.
pub fn promise_result() -> (r: &'static str)
    ensures
        r@ == r"(near_sdk[0-9]+environment[0-9]+env[0-9]+(promise_result|promise_results_count)[0-9]+)|(near_sdk[0-9]+utils[0-9]+(is_promise_success|promise_result_as_success)[0-9]+)"@,
{
    r"(near_sdk[0-9]+environment[0-9]+env[0-9]+(promise_result|promise_results_count)[0-9]+)|(near_sdk[0-9]+utils[0-9]+(is_promise_success|promise_result_as_success)[0-9]+)"
}

/// Pattern matching `env::promise_result` and `env::promise_results_count` (access without check).
pub fn promise_result_access() -> (r: &'static str)
    ensures
        r@ == r"near_sdk[0-9]+environment[0-9]+env[0-9]+(promise_result|promise_results_count)[0-9]+"@,
{
    r"near_sdk[0-9]+environment[0-9]+env[0-9]+(promise_result|promise_results_count)[0-9]+"
}

/// Pattern matching `is_promise_success` and `promise_result_as_success` (the check).
pub fn promise_result_check() -> (r: &'static str)
    ensures
        r@ == r"near_sdk[0-9]+utils[0-9]+(is_promise_success|promise_result_as_success)[0-9]+"@,
{
    r"near_sdk[0-9]+utils[0-9]+(is_promise_success|promise_result_as_success)[0-9]+"
}

/// Pattern matching `PartialEq` implementations.
pub fn partial_eq() -> (r: &'static str)
    ensures
        r@ == r"core\.\.cmp\.\.PartialEq"@,
{
    r"core\.\.cmp\.\.PartialEq"
}

/// Pattern matching `PartialOrd` implementations.
pub fn partial_ord() -> (r: &'static str)
    ensures
        r@ == r"core[0-9]+cmp[0-9]+PartialOrd"@,
{
    r"core[0-9]+cmp[0-9]+PartialOrd"
}

/// Pattern matching `env::predecessor_account_id`.
pub fn predecessor_account_id() -> (r: &'static str)
    ensures
        r@ == r"near_sdk[0-9]+environment[0-9]+env[0-9]+predecessor_account_id"@,
{
    r"near_sdk[0-9]+environment[0-9]+env[0-9]+predecessor_account_id"
}

/// Pattern matching `block_timestamp`.
pub fn block_timestamp() -> (r: &'static str)
    ensures
        r@ == r"block_timestamp"@,
{
    r"block_timestamp"
}

/// Pattern matching The `llvm.*mul.with.overflow.*` intrinsics.
pub fn llvm_mul_overflow() -> (r: &'static str)
    ensures
        r@ == r"llvm\.[a-z]?mul\.with\.overflow\."@,
{
    r"llvm\.[a-z]?mul\.with\.overflow\."
}

/// Pattern matching `env::prepaid_gas`.
pub fn prepaid_gas() -> (r: &'static str)
    ensures
        r@ == r"near_sdk[0-9]+environment[0-9]+env[0-9]+prepaid_gas"@,
{
    r"near_sdk[0-9]+environment[0-9]+env[0-9]+prepaid_gas"
}

/// Pattern matching The standard fungible-token transfer implementation.
pub fn ft_transfer_call_standard() -> (r: &'static str)
    ensures
        r@ == r"near_contract_standards.+fungible_token.+core_impl.+FungibleToken.+[0-9](ft_transfer(_call)?|internal_transfer)[0-9]"@,
{
    r"near_contract_standards.+fungible_token.+core_impl.+FungibleToken.+[0-9](ft_transfer(_call)?|internal_transfer)[0-9]"
}

/// Pattern matching `FungibleTokenCore::ft_transfer` implementations.
pub fn ft_transfer_trait() -> (r: &'static str)
    ensures
        r@ == r"near_contract_standards\.\.fungible_token\.\.core\.\.FungibleTokenCore\$.+[0-9]ft_transfer[0-9]"@,
{
    r"near_contract_standards\.\.fungible_token\.\.core\.\.FungibleTokenCore\$.+[0-9]ft_transfer[0-9]"
}

/// Pattern matching `FungibleTokenCore::ft_transfer_call` implementations.
pub fn ft_transfer_call_trait() -> (r: &'static str)
    ensures
        r@ == r"near_contract_standards\.\.fungible_token\.\.core\.\.FungibleTokenCore\$.+[0-9]ft_transfer_call[0-9]"@,
{
    r"near_contract_standards\.\.fungible_token\.\.core\.\.FungibleTokenCore\$.+[0-9]ft_transfer_call[0-9]"
}

/// Pattern matching `promise_batch_action_deploy_contract`.
pub fn promise_batch_deploy() -> (r: &'static str)
    ensures
        r@ == r"promise_batch_action_deploy_contract"@,
{
    r"promise_batch_action_deploy_contract"
}

/// Pattern matching `promise_batch_action_function_call`.
pub fn promise_batch_function_call() -> (r: &'static str)
    ensures
        r@ == r"promise_batch_action_function_call"@,
{
    r"promise_batch_action_function_call"
}

/// Pattern matching `insert` and `extend` on SDK collections.
pub fn storage_expansion() -> (r: &'static str)
    ensures
        r@ == r"near_sdk[0-9]+collections[0-9]+.+(insert|extend)"@,
{
    r"near_sdk[0-9]+collections[0-9]+.+(insert|extend)"
}

/// Pattern matching `env::storage_usage`.
pub fn storage_usage() -> (r: &'static str)
    ensures
        r@ == r"near_sdk[0-9]+environment[0-9]+env[0-9]+storage_usage[0-9]+"@,
{
    r"near_sdk[0-9]+environment[0-9]+env[0-9]+storage_usage[0-9]+"
}

/// Pattern matching `get` on SDK map collections.
pub fn map_get() -> (r: &'static str)
    ensures
        r@ == r"near_sdk[0-9]+collections[0-9]+(lookup_map[0-9]+LookupMap|tree_map[0-9]+TreeMap|unordered_map[0-9]+UnorderedMap|legacy_tree_map[0-9]+LegacyTreeMap)\$.+[0-9]+get[0-9]+"@,
{
    r"near_sdk[0-9]+collections[0-9]+(lookup_map[0-9]+LookupMap|tree_map[0-9]+TreeMap|unordered_map[0-9]+UnorderedMap|legacy_tree_map[0-9]+LegacyTreeMap)\$.+[0-9]+get[0-9]+"
}

/// Pattern matching `insert` on SDK map collections.
pub fn map_insert() -> (r: &'static str)
    ensures
        r@ == r"near_sdk[0-9]+collections[0-9]+(lookup_map[0-9]+LookupMap|tree_map[0-9]+TreeMap|unordered_map[0-9]+UnorderedMap|legacy_tree_map[0-9]+LegacyTreeMap)\$.+[0-9]+insert[0-9]+"@,
{
    r"near_sdk[0-9]+collections[0-9]+(lookup_map[0-9]+LookupMap|tree_map[0-9]+TreeMap|unordered_map[0-9]+UnorderedMap|legacy_tree_map[0-9]+LegacyTreeMap)\$.+[0-9]+insert[0-9]+"
}

/// Pattern matching Every unwrap variant on `Option`.
pub fn all_unwrap() -> (r: &'static str)
    ensures
        r@ == r"core[0-9]+option[0-9]+Option\$.+[0-9]+(unwrap|unwrap_or|unwrap_or_else|unwrap_or_default|unwrap_unchecked)[0-9]+"@,
{
    r"core[0-9]+option[0-9]+Option\$.+[0-9]+(unwrap|unwrap_or|unwrap_or_else|unwrap_or_default|unwrap_unchecked)[0-9]+"
}

/// Pattern matching `unwrap_or`, `unwrap_or_default` and `unwrap_unchecked` on `Option` and `Result`.
pub fn unchecked_unwrap() -> (r: &'static str)
    ensures
        r@ == r"core[0-9]+(option[0-9]+Option|result[0-9]+Result)\$.+[0-9]+(unwrap_or|unwrap_or_default|unwrap_unchecked)[0-9]+"@,
{
    r"core[0-9]+(option[0-9]+Option|result[0-9]+Result)\$.+[0-9]+(unwrap_or|unwrap_or_default|unwrap_unchecked)[0-9]+"
}

/// Pattern matching The panicking path of a plain `unwrap` (`unwrap_failed`, or `Option::unwrap` / `Result::unwrap` themselves).
pub fn plain_unwrap() -> (r: &'static str)
    ensures
        r@ == r"(core[0-9]+(option|result)[0-9]+unwrap_failed)|(core[0-9]+(option[0-9]+Option|result[0-9]+Result)\$.+[0-9]+unwrap[0-9]+)"@,
{
    r"(core[0-9]+(option|result)[0-9]+unwrap_failed)|(core[0-9]+(option[0-9]+Option|result[0-9]+Result)\$.+[0-9]+unwrap[0-9]+)"
}

/// Pattern matching `nft_approve`, `nft_revoke` and `nft_revoke_all`.
pub fn nft_approve_function() -> (r: &'static str)
    ensures
        r@ == r"[0-9]+(nft_approve|nft_revoke|nft_revoke_all)[0-9]+"@,
{
    r"[0-9]+(nft_approve|nft_revoke|nft_revoke_all)[0-9]+"
}

/// Pattern matching `nft_transfer` implementations.
pub fn nft_transfer_bare() -> (r: &'static str)
    ensures
        r@ == r"[0-9]nft_transfer[0-9]"@,
{
    r"[0-9]nft_transfer[0-9]"
}

/// Pattern matching `nft_transfer_call` implementations.
pub fn nft_transfer_call_bare() -> (r: &'static str)
    ensures
        r@ == r"[0-9]nft_transfer_call[0-9]"@,
{
    r"[0-9]nft_transfer_call[0-9]"
}

/// Pattern matching The standard non-fungible-token transfer implementation.
pub fn nft_standard_transfer() -> (r: &'static str)
    ensures
        r@ == r"near_contract_standards.+non_fungible_token.+core_impl.+NonFungibleToken.+[0-9](nft_transfer(_call)?|internal_transfer)[0-9]"@,
{
    r"near_contract_standards.+non_fungible_token.+core_impl.+NonFungibleToken.+[0-9](nft_transfer(_call)?|internal_transfer)[0-9]"
}

/// Pattern matching `storage_unregister`.
pub fn storage_unregister() -> (r: &'static str)
    ensures
        r@ == r"[0-9]+storage_unregister[0-9]+"@,
{
    r"[0-9]+storage_unregister[0-9]+"
}

/// Pattern matching Any `Promise` method.
pub fn promise_any_method() -> (r: &'static str)
    ensures
        r@ == r"(.+near_sdk[0-9]+promise[0-9]+Promise[0-9]+([_a-z]+)[0-9]+[0-9a-z]+)"@,
{
    r"(.+near_sdk[0-9]+promise[0-9]+Promise[0-9]+([_a-z]+)[0-9]+[0-9a-z]+)"
}

/// Pattern matching `drop_in_place::<near_sdk::promise::Promise>`.
pub fn promise_drop_in_place() -> (r: &'static str)
    ensures
        r@ == r"drop_in_place.*near_sdk.*promise.*Promise"@,
{
    r"drop_in_place.*near_sdk.*promise.*Promise"
}

/// Pattern matching Every `llvm.*.with.overflow.*` intrinsic.
pub fn with_overflow() -> (r: &'static str)
    ensures
        r@ == r"llvm\..+\.with\.overflow\."@,
{
    r"llvm\..+\.with\.overflow\."
}

/// Pattern matching `core::num` checked arithmetic.
pub fn checked_math() -> (r: &'static str)
    ensures
        r@ == r"core.+num.+checked_"@,
{
    r"core.+num.+checked_"
}

/// Pattern matching `assert_one_yocto`.
pub fn assert_one_yocto() -> (r: &'static str)
    ensures
        r@ == r"near_sdk[0-9]+utils[0-9]+assert_one_yocto"@,
{
    r"near_sdk[0-9]+utils[0-9]+assert_one_yocto"
}

/// Pattern matching `PartialEq` on `AccountId`.
pub fn account_id_eq() -> (r: &'static str)
    ensures
        r@ == r"near_sdk\.\.types\.\.account_id\.\.AccountId.+core\.\.cmp\.\.PartialEq"@,
{
    r"near_sdk\.\.types\.\.account_id\.\.AccountId.+core\.\.cmp\.\.PartialEq"
}

} // verus!
