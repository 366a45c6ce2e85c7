use cargo_kbuild::config::parse_config_text;
use cargo_kbuild::digits::{parse_i32, parse_usize, render_i32, render_usize};
use cargo_kbuild::strops::{find_char, str_eq, str_starts_with, trim_str, vec_contains_string};

#[test]
fn parser_basic_lines() {
    let table = parse_config_text("CONFIG_A=y\nCONFIG_B=hello\n");
    assert_eq!(table.len(), 2);
    assert_eq!(table.get_value("CONFIG_A").unwrap(), "y");
    assert_eq!(table.get_value("CONFIG_B").unwrap(), "hello");
    assert!(table.get_value("CONFIG_C").is_none());
}

#[test]
fn parser_skips_blanks_and_comments() {
    let table = parse_config_text("\n   \n# comment\n  # indented comment\nCONFIG_A=y\n");
    assert_eq!(table.len(), 1);
    assert!(table.contains_key("CONFIG_A"));
}

#[test]
fn parser_skips_lines_without_separator() {
    let table = parse_config_text("no separator here\nCONFIG_A=y\njunk\n");
    assert_eq!(table.len(), 1);
}

#[test]
fn parser_splits_on_first_separator_only() {
    let table = parse_config_text("CONFIG_EXPR=a=b=c\n");
    assert_eq!(table.get_value("CONFIG_EXPR").unwrap(), "a=b=c");
}

#[test]
fn parser_trims_both_sides() {
    let table = parse_config_text("  CONFIG_A  =  y  \n\tCONFIG_B\t=\t2\t\n");
    assert_eq!(table.get_value("CONFIG_A").unwrap(), "y");
    assert_eq!(table.get_value("CONFIG_B").unwrap(), "2");
}

#[test]
fn parser_last_write_wins_keeps_first_position() {
    let table = parse_config_text("CONFIG_A=y\nCONFIG_B=y\nCONFIG_A=n\n");
    assert_eq!(table.len(), 2);
    assert_eq!(table.get_value("CONFIG_A").unwrap(), "n");
    assert_eq!(table.syms[0].name, "CONFIG_A");
    assert_eq!(table.syms[1].name, "CONFIG_B");
}

#[test]
fn parser_handles_missing_final_newline_and_crlf() {
    let table = parse_config_text("CONFIG_A=y\r\nCONFIG_B=m");
    assert_eq!(table.get_value("CONFIG_A").unwrap(), "y");
    assert_eq!(table.get_value("CONFIG_B").unwrap(), "m");
}

#[test]
fn parser_empty_input() {
    assert_eq!(parse_config_text("").len(), 0);
    assert_eq!(parse_config_text("\n\n").len(), 0);
}

#[test]
fn parser_empty_value_and_empty_key() {
    let table = parse_config_text("CONFIG_A=\n=5\n");
    assert_eq!(table.get_value("CONFIG_A").unwrap(), "");
    assert_eq!(table.get_value("").unwrap(), "5");
}

#[test]
fn signed_literals() {
    assert_eq!(parse_i32("0"), Some(0));
    assert_eq!(parse_i32("42"), Some(42));
    assert_eq!(parse_i32("-42"), Some(-42));
    assert_eq!(parse_i32("+42"), Some(42));
    assert_eq!(parse_i32("2147483647"), Some(i32::MAX));
    assert_eq!(parse_i32("-2147483648"), Some(i32::MIN));
    assert_eq!(parse_i32("2147483648"), None);
    assert_eq!(parse_i32("-2147483649"), None);
    assert_eq!(parse_i32("99999999999999999999999999"), None);
    assert_eq!(parse_i32(""), None);
    assert_eq!(parse_i32("-"), None);
    assert_eq!(parse_i32("+"), None);
    assert_eq!(parse_i32("1 2"), None);
    assert_eq!(parse_i32("0x10"), None);
    assert_eq!(parse_i32("007"), Some(7));
}

#[test]
fn unsigned_literals() {
    assert_eq!(parse_usize("0"), Some(0));
    assert_eq!(parse_usize("+8"), Some(8));
    assert_eq!(parse_usize("-8"), None);
    assert_eq!(parse_usize("4294967295"), Some(4294967295));
    assert_eq!(parse_usize("18446744073709551615"), Some(usize::MAX));
    assert_eq!(parse_usize("18446744073709551616"), None);
    assert_eq!(parse_usize(""), None);
    assert_eq!(parse_usize("ten"), None);
}

#[test]
fn decimal_rendering() {
    assert_eq!(render_usize(0), "0");
    assert_eq!(render_usize(7), "7");
    assert_eq!(render_usize(1234567890), "1234567890");
    assert_eq!(render_i32(0), "0");
    assert_eq!(render_i32(42), "42");
    assert_eq!(render_i32(-42), "-42");
    assert_eq!(render_i32(i32::MAX), "2147483647");
    assert_eq!(render_i32(i32::MIN), "-2147483648");
}

#[test]
fn parse_then_render_round_trip() {
    for text in ["0", "17", "-300", "2147483647", "-2147483648"] {
        let n = parse_i32(text).unwrap();
        let back = render_i32(n);
        assert_eq!(parse_i32(&back), Some(n));
    }
}

#[test]
fn string_tools() {
    assert!(str_eq("abc", "abc"));
    assert!(!str_eq("abc", "abd"));
    assert!(!str_eq("abc", "ab"));
    assert!(str_starts_with("CONFIG_NET", "CONFIG_"));
    assert!(!str_starts_with("CONF", "CONFIG_"));
    assert!(str_starts_with("anything", ""));
    assert_eq!(trim_str("  spaced \t"), "spaced");
    assert_eq!(trim_str("\r\n"), "");
    assert_eq!(trim_str("solid"), "solid");
    assert_eq!(find_char("a=b", '='), Some(1));
    assert_eq!(find_char("a=b=c", '='), Some(1));
    assert_eq!(find_char("abc", '='), None);
    let v = vec!["one".to_string(), "two".to_string()];
    assert!(vec_contains_string(&v, "two"));
    assert!(!vec_contains_string(&v, "three"));
}
