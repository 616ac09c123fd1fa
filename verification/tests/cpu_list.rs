use core_blake3::{parse_cpu_list, MAX_CPU_ID};

fn parse(s: &str) -> Option<Vec<usize>> {
    parse_cpu_list(s.as_bytes())
}

#[test]
fn canonical_sysfs_forms() {
    assert_eq!(parse(""), Some(vec![]));
    assert_eq!(parse("0"), Some(vec![0]));
    assert_eq!(parse("0-3"), Some(vec![0, 1, 2, 3]));
    assert_eq!(parse("0-11"), Some((0..12).collect()));
    assert_eq!(parse("12-19"), Some((12..20).collect()));
    assert_eq!(parse("0-3,8,10-11"), Some(vec![0, 1, 2, 3, 8, 10, 11]));
    assert_eq!(parse("0,2,4,6"), Some(vec![0, 2, 4, 6]));
    assert_eq!(parse("4-4"), Some(vec![4]));
}

#[test]
fn order_and_repeats_are_kept() {
    assert_eq!(parse("5,1-2,1"), Some(vec![5, 1, 2, 1]));
}

#[test]
fn one_trailing_comma_is_tolerated() {
    assert_eq!(parse("1,"), Some(vec![1]));
    assert_eq!(parse("0-2,"), Some(vec![0, 1, 2]));
    assert_eq!(parse("1,,"), None);
    assert_eq!(parse(","), None);
    assert_eq!(parse(",,"), None);
}

#[test]
fn malformed_lists_are_refused() {
    assert_eq!(parse("0-3junk"), None);
    assert_eq!(parse("5,,6"), None);
    assert_eq!(parse("5 , 6"), None);
    assert_eq!(parse(" 5"), None);
    assert_eq!(parse("-1"), None);
    assert_eq!(parse("+1"), None);
    assert_eq!(parse(",1"), None);
    assert_eq!(parse("3-1"), None);
    assert_eq!(parse("1-"), None);
    assert_eq!(parse("1-2-3"), None);
    assert_eq!(parse("0-11\n"), None);
    assert_eq!(parse("a"), None);
}

#[test]
fn values_are_capped_at_max_cpu_id() {
    assert_eq!(MAX_CPU_ID, 8191);
    assert_eq!(parse("8191"), Some(vec![8191]));
    assert_eq!(parse("8192"), None);
    assert_eq!(parse("0-999999999999"), None);
    assert_eq!(parse("18446744073709551616"), None);
    assert_eq!(parse("0008191"), Some(vec![8191]));
    let all = parse("0-8191").unwrap();
    assert_eq!(all.len(), 8192);
    assert_eq!(all[0], 0);
    assert_eq!(all[8191], 8191);
}
