use dnsmonitor::{
    find_and_remove_debug_flag, find_and_remove_sleep_value_in_ms,
    find_and_remove_warning_time_in_ms, find_help_flag, FlagValueError,
};

fn args(list: &[&str]) -> Vec<String> {
    list.iter().map(|s| s.to_string()).collect()
}

#[test]
fn help_flag_found_anywhere() {
    let mut flags = args(&["dnsmonitor", "www.heise.de", "-h"]);
    assert!(find_help_flag(&mut flags));
    assert_eq!(flags, args(&["dnsmonitor", "www.heise.de", "-h"]));
    let mut flags = args(&["dnsmonitor", "www.heise.de"]);
    assert!(!find_help_flag(&mut flags));
}

#[test]
fn debug_flag_is_removed_once() {
    let mut flags = args(&["dnsmonitor", "-d", "a.example", "-d"]);
    assert!(find_and_remove_debug_flag(&mut flags));
    assert_eq!(flags, args(&["dnsmonitor", "a.example", "-d"]));
    let mut flags = args(&["dnsmonitor", "a.example"]);
    assert!(!find_and_remove_debug_flag(&mut flags));
    assert_eq!(flags, args(&["dnsmonitor", "a.example"]));
}

#[test]
fn sleep_value_default() {
    let mut flags = args(&["dnsmonitor", "a.example"]);
    assert_eq!(find_and_remove_sleep_value_in_ms(&mut flags), Ok(1000));
    assert_eq!(flags, args(&["dnsmonitor", "a.example"]));
}

#[test]
fn sleep_value_given() {
    let mut flags = args(&["dnsmonitor", "-s", "999", "www.heise.de", "ldap-db-tkom.tv"]);
    assert_eq!(find_and_remove_sleep_value_in_ms(&mut flags), Ok(999));
    assert_eq!(flags, args(&["dnsmonitor", "www.heise.de", "ldap-db-tkom.tv"]));
}

#[test]
fn sleep_value_with_plus_sign() {
    let mut flags = args(&["dnsmonitor", "-s", "+25"]);
    assert_eq!(find_and_remove_sleep_value_in_ms(&mut flags), Ok(25));
    assert_eq!(flags, args(&["dnsmonitor"]));
}

#[test]
fn sleep_value_not_a_number() {
    for bad in ["abc", "-1", "", "+", " 5", "18446744073709551616", "1_000"] {
        let mut flags = args(&["dnsmonitor", "-s", bad, "a.example"]);
        assert_eq!(
            find_and_remove_sleep_value_in_ms(&mut flags),
            Err(FlagValueError::NotANumber),
            "value {:?}",
            bad
        );
        assert_eq!(flags, args(&["dnsmonitor", bad, "a.example"]));
    }
}

#[test]
fn sleep_value_largest() {
    let mut flags = args(&["dnsmonitor", "-s", "18446744073709551615"]);
    assert_eq!(find_and_remove_sleep_value_in_ms(&mut flags), Ok(u64::MAX));
}

#[test]
fn sleep_value_missing() {
    let mut flags = args(&["dnsmonitor", "a.example", "-s"]);
    assert_eq!(find_and_remove_sleep_value_in_ms(&mut flags), Err(FlagValueError::Missing));
    assert_eq!(flags, args(&["dnsmonitor", "a.example"]));
}

#[test]
fn warning_time_default_and_given() {
    let mut flags = args(&["dnsmonitor", "a.example"]);
    assert_eq!(find_and_remove_warning_time_in_ms(&mut flags), Ok(5));
    let mut flags = args(&["dnsmonitor", "-w", "1000", "-d", "a.example"]);
    assert_eq!(find_and_remove_warning_time_in_ms(&mut flags), Ok(1000));
    assert_eq!(flags, args(&["dnsmonitor", "-d", "a.example"]));
}

#[test]
fn warning_time_out_of_range() {
    let mut flags = args(&["dnsmonitor", "-w", "4294967296"]);
    assert_eq!(find_and_remove_warning_time_in_ms(&mut flags), Err(FlagValueError::NotANumber));
    assert_eq!(flags, args(&["dnsmonitor", "4294967296"]));
    let mut flags = args(&["dnsmonitor", "-w", "4294967295"]);
    assert_eq!(find_and_remove_warning_time_in_ms(&mut flags), Ok(u32::MAX));
}

#[test]
fn warning_time_missing() {
    let mut flags = args(&["dnsmonitor", "-w"]);
    assert_eq!(find_and_remove_warning_time_in_ms(&mut flags), Err(FlagValueError::Missing));
    assert_eq!(flags, args(&["dnsmonitor"]));
}
