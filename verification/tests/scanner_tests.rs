use regex::Regex;
use strscan::StringScanner;

#[test]
fn test_is_bol() {
    let mut scanner = StringScanner::new("test\n bol");
    assert!(scanner.is_bol());
    scanner.set_pos(5);
    assert!(scanner.is_bol());
    scanner.set_pos(6);
    assert!(!scanner.is_bol());
}

#[test]
fn test_peek_bytes() {
    let mut scanner = StringScanner::new("test\n peek");
    let slice = scanner.peek_bytes(1).unwrap();
    assert_eq!("t".as_bytes(), slice.as_slice());
    assert_eq!(0, scanner.get_pos());
    assert_eq!(
        "test\n peek".as_bytes(),
        scanner.peek_bytes(100).unwrap().as_slice()
    );
    scanner.terminate();
    assert_eq!(None, scanner.peek_bytes(1));
}

#[test]
fn test_peek_chars() {
    let mut scanner = StringScanner::new("Löwe 老虎 Léopard");
    let slice = scanner.peek_chars(4).unwrap();
    assert_eq!("Löwe", slice);
    assert_eq!(0, scanner.get_pos());
    assert_eq!("Löwe 老虎 Léopard", scanner.peek_chars(100).unwrap());
    scanner.terminate();
    assert_eq!(None, scanner.peek_chars(1));
}

#[test]
fn test_set_pos() {
    let mut scanner = StringScanner::new("test\n set pos");
    assert_eq!(0, scanner.get_pos());
    assert!(scanner.set_pos(1));
    assert_eq!(1, scanner.get_pos());
    assert!(!scanner.set_pos(100));
    assert_eq!(1, scanner.get_pos());
}

#[test]
fn test_empty_scanner() {
    let mut scanner = StringScanner::new("");
    assert!(scanner.is_bol());
    assert!(scanner.is_eos());
    scanner.set_pos(1);
    assert!(scanner.is_eos());
}

#[test]
fn test_rest() {
    let mut scanner = StringScanner::new("test rest");
    assert_eq!("test rest", scanner.rest().unwrap());
    assert!(scanner.is_bol());
    scanner.set_pos(5);
    assert_eq!("rest", scanner.rest().unwrap());
    scanner.terminate();
    assert_eq!(None, scanner.rest());
}

#[test]
fn test_scan() {
    let mut scanner = StringScanner::new("test\n scan");
    let re_chars = Regex::new(r"^\w+").unwrap();
    let re_ws = Regex::new(r"^\s+").unwrap();
    let scanned = scanner.scan(&re_chars).unwrap();
    assert_eq!("test", scanned);
    assert!(scanner.scan(&re_chars).is_none());
    assert_eq!("\n ", scanner.scan(&re_ws).unwrap());
    assert_eq!("scan", scanner.scan(&re_chars).unwrap());
    assert!(scanner.scan(&re_ws).is_none());
    assert!(scanner.is_eos());
}

#[test]
fn test_check() {
    let mut scanner = StringScanner::new("test\n check");
    let re_chars = Regex::new(r"^\w+").unwrap();
    let re_ws = Regex::new(r"^\s+").unwrap();
    assert!(scanner.check(&re_chars));
    assert!(!scanner.check(&re_ws));
}

#[test]
fn test_captures() {
    let mut scanner = StringScanner::new("test\n caps");
    let re = Regex::new(r"^(\w+)\s+").unwrap();
    scanner.check(&re);
    assert_eq!("test\n ", scanner.captures().unwrap().at(0).unwrap());
    assert_eq!("test", scanner.captures().unwrap().at(1).unwrap());
    assert_eq!(None, scanner.captures().unwrap().at(2));
    assert_eq!("test\n ", scanner.match_at(0).unwrap());
    assert_eq!("test", scanner.match_at(1).unwrap());
    assert_eq!(None, scanner.match_at(2));
}
