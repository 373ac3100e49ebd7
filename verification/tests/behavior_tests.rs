use regex::Regex;
use strscan::StringScanner;

#[test]
fn test_set_pos_all_valid_offsets() {
    let mut scanner = StringScanner::new("abc");
    for p in 0..4usize {
        assert!(scanner.set_pos(p));
        assert_eq!(p, scanner.get_pos());
    }
    assert!(!scanner.set_pos(4));
    assert_eq!(3, scanner.get_pos());
}

#[test]
fn test_terminate_forces_eos() {
    let mut scanner = StringScanner::new("abc");
    assert!(!scanner.is_eos());
    scanner.terminate();
    assert!(scanner.is_eos());
    assert_eq!(3, scanner.get_pos());
}

#[test]
fn test_get_byte() {
    let mut scanner = StringScanner::new("Lö");
    assert_eq!(Some(b'L'), scanner.get_byte());
    assert_eq!(1, scanner.get_pos());
    // The next two reads split the two-byte character.
    assert_eq!(Some(0xC3), scanner.get_byte());
    assert_eq!(Some(0xB6), scanner.get_byte());
    assert_eq!(None, scanner.get_byte());
    assert_eq!(3, scanner.get_pos());
}

#[test]
fn test_get_char() {
    let mut scanner = StringScanner::new("Löwe");
    assert_eq!("L", scanner.get_char().unwrap());
    assert_eq!(1, scanner.get_pos());
    assert_eq!("ö", scanner.get_char().unwrap());
    assert_eq!(3, scanner.get_pos());
    assert_eq!("w", scanner.get_char().unwrap());
    assert_eq!("e", scanner.get_char().unwrap());
    assert_eq!(None, scanner.get_char());
    assert_eq!(5, scanner.get_pos());
}

#[test]
fn test_bol_after_consuming_linefeed() {
    let mut scanner = StringScanner::new("a\nb");
    assert!(scanner.is_bol());
    scanner.get_char();
    assert!(!scanner.is_bol());
    assert_eq!("\n", scanner.get_char().unwrap());
    assert!(scanner.is_bol());
}

#[test]
fn test_peek_bytes_may_split_char() {
    let scanner = StringScanner::new("ö");
    assert_eq!(vec![0xC3], scanner.peek_bytes(1).unwrap());
    assert_eq!("ö", scanner.peek_chars(1).unwrap());
}

#[test]
fn test_failed_scan_keeps_position_and_clears_captures() {
    let mut scanner = StringScanner::new("test rest");
    let re_word = Regex::new(r"^\w+").unwrap();
    let re_ws = Regex::new(r"^\s+").unwrap();
    assert!(scanner.check(&re_word));
    assert!(scanner.captures().is_some());
    assert!(scanner.scan(&re_ws).is_none());
    assert_eq!(0, scanner.get_pos());
    assert!(scanner.captures().is_none());
    assert_eq!(None, scanner.match_at(0));
}

#[test]
fn test_scan_advances_by_match_length() {
    let mut scanner = StringScanner::new("test rest");
    let re_word = Regex::new(r"^\w+").unwrap();
    let scanned = scanner.scan(&re_word).unwrap();
    assert_eq!(scanned.len(), scanner.get_pos());
    assert_eq!(scanned, scanner.match_at(0).unwrap());
}

#[test]
fn test_check_keeps_position_but_updates_captures() {
    let mut scanner = StringScanner::new("test rest");
    let re_word = Regex::new(r"^\w+").unwrap();
    let re_ws = Regex::new(r"^\s+").unwrap();
    assert!(scanner.check(&re_word));
    assert_eq!(0, scanner.get_pos());
    assert_eq!("test", scanner.match_at(0).unwrap());
    assert!(!scanner.check(&re_ws));
    assert_eq!(0, scanner.get_pos());
    assert!(scanner.captures().is_none());
}

#[test]
fn test_match_name() {
    let mut scanner = StringScanner::new("key=value");
    let re = Regex::new(r"^(?P<key>\w+)=(?P<val>\w+)").unwrap();
    assert!(scanner.check(&re));
    assert_eq!("key", scanner.match_name("key").unwrap());
    assert_eq!("value", scanner.match_name("val").unwrap());
    assert_eq!(None, scanner.match_name("other"));
    assert_eq!("key", scanner.captures().unwrap().name("key").unwrap());
}

#[test]
fn test_match_name_absent_group() {
    let mut scanner = StringScanner::new("ab");
    let re = Regex::new(r"^(?P<a>a)(?P<z>z)?").unwrap();
    assert!(scanner.check(&re));
    assert_eq!("a", scanner.match_name("a").unwrap());
    // The group exists in the pattern but did not participate in the match.
    assert_eq!(None, scanner.match_name("z"));
}

#[test]
fn test_scan_then_rest() {
    let mut scanner = StringScanner::new("test\n scan");
    let re_word = Regex::new(r"^\w+").unwrap();
    assert_eq!("test", scanner.scan(&re_word).unwrap());
    assert_eq!("\n scan", scanner.rest().unwrap());
    assert_eq!(4, scanner.get_pos());
}

#[test]
fn test_boundary_at() {
    let v = "aö".as_bytes().to_vec();
    assert!(strscan::text::boundary_at(&v, 0));
    assert!(strscan::text::boundary_at(&v, 1));
    assert!(!strscan::text::boundary_at(&v, 2));
    assert!(strscan::text::boundary_at(&v, 3));
}

#[test]
fn test_check_records_what_scan_would() {
    let re = Regex::new(r"^(\w+)").unwrap();
    let mut a = StringScanner::new("test rest");
    let mut b = StringScanner::new("test rest");
    assert!(a.check(&re));
    assert_eq!("test", b.scan(&re).unwrap());
    assert_eq!(a.match_at(0), b.match_at(0));
    assert_eq!(a.match_at(1), b.match_at(1));
    assert_eq!(0, a.get_pos());
    assert_eq!(4, b.get_pos());
}

#[test]
fn test_check_is_repeatable() {
    let re = Regex::new(r"^\w+").unwrap();
    let mut scanner = StringScanner::new("test rest");
    assert!(scanner.check(&re));
    let first = scanner.match_at(0);
    assert!(scanner.check(&re));
    assert_eq!(first, scanner.match_at(0));
    assert_eq!(0, scanner.get_pos());
}
