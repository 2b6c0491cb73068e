use editty::player::probe::{find, graphics_support, has_da_reply};

#[test]
fn parses_a_supporting_reply() {
    // direct + shm OK, then the DA sentinel.
    let buf = b"\x1b_Gi=4242;OK\x1b\\\x1b_Gi=4243;OK\x1b\\\x1b[?62;1c";
    assert!(find(buf, b"i=4242;OK").is_some());
    assert!(find(buf, b"i=4243;OK").is_some());
    assert!(has_da_reply(buf));
}

#[test]
fn detects_no_graphics_when_only_da_replies() {
    let buf = b"\x1b[?62;1c"; // a terminal that answered DA but no graphics OK
    assert!(find(buf, b"i=4242;OK").is_none());
    assert!(has_da_reply(buf));
}

#[test]
fn da_reply_requires_terminator() {
    assert!(!has_da_reply(b"\x1b[?62;1")); // not yet terminated by 'c'
    assert!(!has_da_reply(b"random bytes"));
}

#[test]
fn find_reports_the_first_position() {
    assert_eq!(find(b"abcabc", b"bc"), Some(1));
    assert_eq!(find(b"abc", b""), None);
    assert_eq!(find(b"ab", b"abc"), None);
    assert_eq!(find(b"abc", b"abc"), Some(0));
}

#[test]
fn support_follows_the_acknowledgements() {
    let both = b"\x1b_Gi=4242;OK\x1b\\\x1b_Gi=4243;OK\x1b\\\x1b[?62;1c";
    let s = graphics_support(both, true);
    assert!(s.graphics && s.shm);
    let s = graphics_support(both, false);
    assert!(s.graphics && !s.shm);
    let s = graphics_support(b"\x1b_Gi=4243;OK\x1b\\\x1b[?62;1c", true);
    assert!(!s.graphics && !s.shm);
    let s = graphics_support(b"\x1b[?62;1c", true);
    assert!(!s.graphics && !s.shm);
}
