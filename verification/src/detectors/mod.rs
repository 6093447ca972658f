//! The detectors. Each one is a verified function from a module to the lines
//! it records, stated per function of the module.
pub mod common;
pub mod unclaimed_storage_fee;
pub mod nft_approval_check;
pub mod unregistered_receiver;
pub mod reentrancy;
pub mod self_transfer;
pub mod complex_loop;
pub mod struct_member;
pub mod nep_interface;
pub mod state_change_before_call;
pub mod unsaved_changes;
pub mod unhandled_promise;
pub mod callback_panic;
pub mod upgrade_owner_check;
pub mod unsafe_math;
pub mod unchecked_promise_result;
pub mod storage_gas;
pub mod upgrade_func;
pub mod div_before_mul;
pub mod transfer;
pub mod missing_owner_check;
pub mod promise_chain;
pub mod prepaid_gas;
pub mod nft_owner_check;
pub mod ext_call_trait;
pub mod timestamp;
pub mod all_call;
pub mod callback;
pub mod yocto_attach;
pub mod ext_call;
