use off_the_grid::config::{
    api_url_default, rescan_height_from_str, NodeConfig, RescanHeight, WalletStatus,
    WalletStatusError,
};
use off_the_grid::matcher::{BoxId, BoxIdGate, MempoolOverlay, PendingTransaction};

fn bid(first: u8) -> BoxId {
    let mut bytes = [0u8; 32];
    bytes[0] = first;
    BoxId::new(bytes)
}

#[test]
fn gate_reports_new_ids_once() {
    let mut gate = BoxIdGate::new();
    let ids = vec![bid(1), bid(2)];
    let (spent, new) = gate.check_box_ids(&ids).unwrap();
    assert!(spent.is_empty());
    assert_eq!(new.len(), 2);
    assert!(gate.check_box_ids(&ids).is_none());
    // Removals alone are ignored.
    assert!(gate.check_box_ids(&vec![bid(1)]).is_none());
    let (spent, new) = gate.check_box_ids(&vec![bid(1), bid(3)]).unwrap();
    assert_eq!(spent, vec![bid(2)]);
    assert_eq!(new, vec![bid(3)]);
}

#[test]
fn overlay_replays_transactions() {
    let txs = vec![
        PendingTransaction { inputs: vec![bid(1)], outputs: vec![bid(5)] },
        PendingTransaction { inputs: vec![bid(5)], outputs: vec![bid(6)] },
    ];
    let overlay = MempoolOverlay::from_transactions(&txs);
    assert!(overlay.is_spent(&bid(1)));
    assert!(overlay.is_spent(&bid(5)));
    assert!(!overlay.is_spent(&bid(2)));
    assert_eq!(overlay.created_ids(), vec![bid(6)]);
    let base = vec![bid(1), bid(2), bid(3)];
    assert_eq!(overlay.unspent_indices(&base), vec![1, 2]);
}

#[test]
fn config_values() {
    assert_eq!(api_url_default(), "http://127.0.0.1:9053");
    let c = NodeConfig::with_key(None, "k".to_string());
    assert_eq!(c.api_url, "http://127.0.0.1:9053");
    assert_eq!(RescanHeight::Relative(10).resolve(100), 90);
    assert_eq!(RescanHeight::Relative(200).resolve(100), 0);
    assert_eq!(RescanHeight::Absolute(7).resolve(100), 7);
    let w = WalletStatus {
        is_initialized: true,
        is_unlocked: false,
        change_address: None,
        wallet_height: 1,
        error: String::new(),
    };
    assert_eq!(w.error_if_locked(), Err(WalletStatusError::WalletLocked));
    assert!(matches!(w.change_address(), Err(WalletStatusError::NoChangeAddress)));
}

#[test]
fn rescan_heights() {
    assert_eq!(rescan_height_from_str("1200"), Ok(RescanHeight::Absolute(1200)));
    assert_eq!(rescan_height_from_str("~15"), Ok(RescanHeight::Relative(15)));
    assert_eq!(rescan_height_from_str("-7"), Ok(RescanHeight::Absolute(-7)));
    assert_eq!(rescan_height_from_str("+7"), Ok(RescanHeight::Absolute(7)));
    assert_eq!(rescan_height_from_str("2147483647"), Ok(RescanHeight::Absolute(i32::MAX)));
    assert_eq!(rescan_height_from_str("-2147483648"), Ok(RescanHeight::Absolute(i32::MIN)));
    let err = |s: &str| rescan_height_from_str(s).unwrap_err();
    assert_eq!(err("2147483648"), "Invalid rescan height: number too large to fit in target type");
    assert_eq!(err("-2147483649"), "Invalid rescan height: number too small to fit in target type");
    assert_eq!(err(""), "Invalid rescan height: cannot parse integer from empty string");
    assert_eq!(err("~"), "Invalid rescan height: cannot parse integer from empty string");
    assert_eq!(err("-"), "Invalid rescan height: invalid digit found in string");
    assert_eq!(err("12a"), "Invalid rescan height: invalid digit found in string");
    assert_eq!(err(" 12"), "Invalid rescan height: invalid digit found in string");
    assert_eq!(err("99999999999999999999"), "Invalid rescan height: number too large to fit in target type");
    // The messages are those of std's own parser.
    for s in ["", "-", "+", "12a", "2147483648", "-2147483649", "9999999999a"] {
        let std_error = s.parse::<i32>().unwrap_err().to_string();
        assert_eq!(err(s), format!("Invalid rescan height: {}", std_error));
    }
}
