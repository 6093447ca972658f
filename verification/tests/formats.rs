use rustle::detectors::nep_interface::{bitcode_files, nep_detector_name, parse_nep_id, parse_u32, positional_funcs, required_funcs};
use rustle::detectors::struct_member::{mode_str, Mode};
use rustle::input::{callback_names, lines_of, pattern_lines, struct_names};
use rustle::output::{tmp_file_path, to_decimal, TmpWriter};
use rustle::patterns::{is_lib_func, is_lib_loc, is_match};
use rustle::text::{str_contains, str_eq, str_starts_with, str_strip_prefix};

fn strings(v: &[&str]) -> Vec<String> {
    v.iter().map(|s| s.to_string()).collect()
}

#[test]
fn writer_formats() {
    let mut w = TmpWriter::new("reentrancy");
    assert_eq!(w.detector, "reentrancy");
    w.write("swap", "src/lib.rs", 42);
    w.write_name("ft_transfer");
    w.write_func_file("on_swap", "src/lib.rs");
    w.write_bool("stake", true);
    w.write_bool("unstake", false);
    assert_eq!(
        w.lines,
        strings(&["swap@src/lib.rs@42", "ft_transfer", "on_swap@src/lib.rs", "stake@True", "unstake@False"])
    );
    assert_eq!(w.contents(), "swap@src/lib.rs@42\nft_transfer\non_swap@src/lib.rs\nstake@True\nunstake@False\n");
}

#[test]
fn writer_line_zero_and_large() {
    let mut w = TmpWriter::new("x");
    w.write("f", "a.rs", 0);
    w.write("f", "a.rs", 4294967295);
    assert_eq!(w.lines, strings(&["f@a.rs@0", "f@a.rs@4294967295"]));
}

#[test]
fn empty_writer_has_empty_contents() {
    let w = TmpWriter::new("x");
    assert_eq!(w.contents(), "");
}

#[test]
fn decimal_forms() {
    assert_eq!(to_decimal(0), "0");
    assert_eq!(to_decimal(7), "7");
    assert_eq!(to_decimal(1203), "1203");
}

#[test]
fn tmp_paths() {
    assert_eq!(tmp_file_path("./.tmp/", "callback"), "./.tmp/.callback.tmp");
    assert_eq!(tmp_file_path("/tmp//", "ext-call-trait"), "/tmp/.ext-call-trait.tmp");
    assert_eq!(tmp_file_path("out", "nep141-interface"), "out/.nep141-interface.tmp");
}

#[test]
fn lines_split_like_str_lines() {
    assert_eq!(lines_of("a\r\nb\n\nc"), strings(&["a", "b", "", "c"]));
    assert_eq!(lines_of("a\n"), strings(&["a"]));
    assert_eq!(lines_of(""), Vec::<String>::new());
    assert_eq!(lines_of("x\r"), strings(&["x\r"]));
    let text = "one\ntwo\n";
    let expected: Vec<String> = text.lines().map(|l| l.to_string()).collect();
    assert_eq!(lines_of(text), expected);
}

#[test]
fn writer_contents_read_back() {
    let mut w = TmpWriter::new("callback");
    w.write_func_file("on_swap", "src/lib.rs");
    w.write_func_file("on_withdraw", "src/staking.rs");
    assert_eq!(lines_of(&w.contents()), w.lines);
    assert_eq!(callback_names(&w.contents()), strings(&["on_swap", "on_withdraw"]));
}

#[test]
fn struct_name_lists() {
    assert_eq!(struct_names("# comment\nstaking::Pool\n\nContract\n"), strings(&["staking::Pool", "Contract"]));
}

#[test]
fn callback_lists() {
    assert_eq!(callback_names("on_a@src/lib.rs\n\non_b\n"), strings(&["on_a", "on_b"]));
    assert_eq!(callback_names("@file\n"), strings(&[""]));
}

#[test]
fn pattern_lists() {
    assert_eq!(pattern_lines("a\n\nb\n"), strings(&["a", "b"]));
}

#[test]
fn library_names_and_paths() {
    assert!(is_lib_func("_ZN4core3fmt5write17h0123E"));
    assert!(is_lib_func("_ZN3std2io5stdio6_print17h0123E"));
    assert!(!is_lib_func("_ZN3amm11AmmContract4swap17h0123E"));
    assert!(is_lib_loc("/rustc/90b35a6/library/core/src/fmt/mod.rs"));
    assert!(is_lib_loc("/home/alice/.cargo/registry/src/near-sdk/src/lib.rs"));
    assert!(is_lib_loc(""));
    assert!(!is_lib_loc("src/lib.rs"));
}

#[test]
fn regex_matching() {
    assert!(is_match("[0-9]+ft_transfer[0-9]+", "_ZN5token11ft_transfer17h"));
    assert!(!is_match("[0-9]+ft_transfer[0-9]+", "ft_transfer"));
    assert!(!is_match("(", "("));
}

#[test]
fn u32_parsing() {
    assert_eq!(parse_u32("141"), Some(141));
    assert_eq!(parse_u32("+7"), Some(7));
    assert_eq!(parse_u32("007"), Some(7));
    assert_eq!(parse_u32("4294967295"), Some(4294967295));
    assert_eq!(parse_u32("4294967296"), None);
    assert_eq!(parse_u32("-1"), None);
    assert_eq!(parse_u32("+"), None);
    assert_eq!(parse_u32(""), None);
    assert_eq!(parse_u32("1a"), None);
    for s in ["0", "12", "+3", "99999999999", "x"] {
        assert_eq!(parse_u32(s), s.parse::<u32>().ok());
    }
}

#[test]
fn decimal_parses_back() {
    for n in [0u32, 9, 10, 141, 4294967295] {
        assert_eq!(parse_u32(&to_decimal(n)), Some(n));
    }
}

#[test]
fn nep_id_arguments() {
    assert_eq!(parse_nep_id(&strings(&["nep_interface", "--nep-id=141", "a.bc"])), Some(141));
    assert_eq!(parse_nep_id(&strings(&["nep_interface", "-nep-id=171"])), Some(171));
    assert_eq!(parse_nep_id(&strings(&["nep_interface", "--nep-id", "245", "a.bc"])), Some(245));
    assert_eq!(parse_nep_id(&strings(&["nep_interface", "a.bc", "-nep-id", "145"])), Some(145));
    assert_eq!(parse_nep_id(&strings(&["nep_interface", "--nep-id"])), None);
    assert_eq!(parse_nep_id(&strings(&["nep_interface", "--nep-id=abc", "--nep-id=141"])), None);
    assert_eq!(parse_nep_id(&strings(&["nep_interface", "a.bc"])), None);
}

#[test]
fn bitcode_arguments() {
    assert_eq!(
        bitcode_files(&strings(&["nep_interface", "--nep-id", "141", "a.bc", "-x", "b.bc"])),
        strings(&["a.bc", "b.bc"])
    );
    assert_eq!(bitcode_files(&strings(&[])), Vec::<String>::new());
}

#[test]
fn nep_table() {
    let table = positional_funcs();
    let mut ids: Vec<u32> = table.keys().cloned().collect();
    ids.sort();
    assert_eq!(ids, vec![141, 145, 148, 171, 177, 178, 181, 199, 245, 246, 330]);
    assert_eq!(table[&141], vec!["ft_transfer", "ft_transfer_call", "ft_total_supply", "ft_balance_of"]);
    assert_eq!(required_funcs(148), Some(vec!["ft_metadata"]));
    assert_eq!(required_funcs(199), Some(Vec::new()));
    assert_eq!(required_funcs(1), None);
    assert_eq!(nep_detector_name(141), "nep141-interface");
}

#[test]
fn mode_words() {
    assert_eq!(mode_str(Mode::Read), "read");
    assert_eq!(mode_str(Mode::Write), "write");
    assert_eq!(mode_str(Mode::Unknown), "unknown");
}

#[test]
fn string_searches() {
    assert!(str_contains("core..convert..Into", "convert"));
    assert!(str_contains("abc", ""));
    assert!(str_contains("abc", "abc"));
    assert!(!str_contains("abc", "abcd"));
    assert!(!str_contains("abc", "ac"));
    assert!(str_contains("héllo wörld", "ö"));
    assert!(str_starts_with("llvm.memcpy", "llvm"));
    assert!(!str_starts_with("llv", "llvm"));
    assert!(str_eq("ä", "ä"));
    assert!(!str_eq("ab", "abc"));
    assert_eq!(str_strip_prefix("--nep-id=141", "--nep-id="), Some("141"));
    assert_eq!(str_strip_prefix("é=x", "é="), Some("x"));
    assert_eq!(str_strip_prefix("-nep-id=141", "--nep-id="), None);
}
