use clipvault::json::{parse_meta, parse_prefs, render_meta, render_prefs};
use clipvault::types::{Meta, Prefs};

#[test]
fn render_meta_has_exact_canonical_text() {
    let bytes = render_meta(&Meta { version: 1, next_counter: 5 });
    assert_eq!(bytes, b"{\"version\":1,\"next_counter\":5}".to_vec());
}

#[test]
fn meta_round_trip() {
    for counter in [0u64, 1, 9, 10, 99, 12345678901234567, u64::MAX] {
        let m = Meta { version: 1, next_counter: counter };
        let parsed = parse_meta(&render_meta(&m)).unwrap();
        assert_eq!(parsed, m);
    }
    let m = Meta { version: 255, next_counter: 3 };
    assert_eq!(parse_meta(&render_meta(&m)).unwrap(), m);
}

#[test]
fn meta_parser_accepts_max_u64() {
    let bytes = b"{\"version\":1,\"next_counter\":18446744073709551615}".to_vec();
    assert_eq!(parse_meta(&bytes).unwrap(), Meta { version: 1, next_counter: u64::MAX });
}

#[test]
fn meta_parser_rejects_overflow() {
    let bytes = b"{\"version\":1,\"next_counter\":18446744073709551616}".to_vec();
    assert!(parse_meta(&bytes).is_none());
}

#[test]
fn meta_parser_rejects_version_above_u8() {
    let bytes = b"{\"version\":256,\"next_counter\":1}".to_vec();
    assert!(parse_meta(&bytes).is_none());
}

#[test]
fn meta_parser_rejects_noncanonical_forms() {
    let bad: [&[u8]; 8] = [
        b"",
        b"{}",
        b"{\"version\":01,\"next_counter\":1}",
        b"{\"version\":1,\"next_counter\":007}",
        b"{\"version\":1, \"next_counter\":1}",
        b"{\"version\":1,\"next_counter\":1} ",
        b"{\"version\":1,\"next_counter\":}",
        b"{\"next_counter\":1,\"version\":1}",
    ];
    for b in bad {
        assert!(parse_meta(&b.to_vec()).is_none(), "accepted {:?}", b);
    }
}

#[test]
fn meta_counter_zero_is_canonical() {
    let bytes = b"{\"version\":1,\"next_counter\":0}".to_vec();
    assert_eq!(parse_meta(&bytes).unwrap(), Meta { version: 1, next_counter: 0 });
}

#[test]
fn render_prefs_has_exact_canonical_text() {
    assert_eq!(render_prefs(&Prefs { auto_launch: true }), b"{\"auto_launch\":true}".to_vec());
    assert_eq!(render_prefs(&Prefs { auto_launch: false }), b"{\"auto_launch\":false}".to_vec());
}

#[test]
fn prefs_round_trip_and_default_fallback() {
    let on = parse_prefs(&render_prefs(&Prefs { auto_launch: true }));
    assert!(on.auto_launch);
    let off = parse_prefs(&render_prefs(&Prefs { auto_launch: false }));
    assert!(!off.auto_launch);
    assert!(!parse_prefs(&b"not json at all".to_vec()).auto_launch);
    assert!(!parse_prefs(&Vec::new()).auto_launch);
}

#[test]
fn prefs_default_is_off() {
    let p: Prefs = Default::default();
    assert!(!p.auto_launch);
}
