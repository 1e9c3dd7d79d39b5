use ink::clipboard::{base64_encode, copy_result, osc52_sequence, paste_result};
use ink::warn::WarnPopup;

#[test]
fn warning_lasts_three_seconds() {
    let mut w = WarnPopup::new();
    assert_eq!(w.render_text(), None);
    w.show("careful".to_string(), 1000);
    assert_eq!(w.render_text(), Some("!warn: careful".to_string()));
    w.tick(3_000_000_999);
    assert_eq!(w.render_text(), Some("!warn: careful".to_string()));
    w.tick(3_000_001_000);
    assert_eq!(w.render_text(), None);
}

#[test]
fn newer_warning_replaces_older() {
    let mut w = WarnPopup::new();
    w.show("a".to_string(), 0);
    w.show("b".to_string(), 2_000_000_000);
    w.tick(4_000_000_000);
    assert_eq!(w.render_text(), Some("!warn: b".to_string()));
}

#[test]
fn base64_matches_rfc_4648_vectors() {
    assert_eq!(base64_encode(b""), "");
    assert_eq!(base64_encode(b"f"), "Zg==");
    assert_eq!(base64_encode(b"fo"), "Zm8=");
    assert_eq!(base64_encode(b"foo"), "Zm9v");
    assert_eq!(base64_encode(b"foob"), "Zm9vYg==");
    assert_eq!(base64_encode(b"fooba"), "Zm9vYmE=");
    assert_eq!(base64_encode(b"foobar"), "Zm9vYmFy");
    assert_eq!(base64_encode(&[0xff, 0xfe, 0x3e]), "//4+");
}

#[test]
fn base64_length_is_four_per_three_bytes() {
    for n in 0..20usize {
        let data = vec![7u8; n];
        assert_eq!(base64_encode(&data).len(), 4 * ((n + 2) / 3));
    }
}

#[test]
fn osc52_plain_and_in_tmux() {
    assert_eq!(osc52_sequence("hi", false), "\u{1b}]52;c;aGk=\u{7}");
    assert_eq!(osc52_sequence("hi", true), "\u{1b}Ptmux;\u{1b}\u{1b}]52;c;aGk=\u{7}\u{1b}\\");
    assert_eq!(osc52_sequence("é", false), "\u{1b}]52;c;w6k=\u{7}");
}

#[test]
fn copy_succeeds_when_either_route_works() {
    assert_eq!(copy_result(true, None), Ok(()));
    assert_eq!(
        copy_result(false, None),
        Err("no clipboard available (OSC 52 write failed and arboard has no backend)".to_string())
    );
    assert_eq!(copy_result(false, Some(Ok(()))), Ok(()));
    assert_eq!(copy_result(true, Some(Err("x".to_string()))), Ok(()));
    assert_eq!(copy_result(false, Some(Err("x".to_string()))), Err("clipboard copy failed: x".to_string()));
}

#[test]
fn paste_reports_backend_failures() {
    assert_eq!(paste_result(None), Err("terminal has no clipboard. c/p is nop".to_string()));
    assert_eq!(paste_result(Some(Ok("t".to_string()))), Ok("t".to_string()));
    assert_eq!(paste_result(Some(Err("e".to_string()))), Err("clipboard paste failed: e".to_string()));
}
