use pfft_miner::signer::parse_key_hex;
use pfft_miner::wallet::{new_wallet_file, trim_hex_prefix, wallet_private_key, WalletFile, WALLET_NOTE};

#[test]
fn prefix_is_trimmed_repeatedly() {
    assert_eq!(trim_hex_prefix("0xabc"), "abc");
    assert_eq!(trim_hex_prefix("0x0xabc"), "abc");
    assert_eq!(trim_hex_prefix("abc"), "abc");
    assert_eq!(trim_hex_prefix("0x"), "");
    assert_eq!(trim_hex_prefix(""), "");
    assert_eq!(trim_hex_prefix("0"), "0");
    assert_eq!(trim_hex_prefix("00xab"), "00xab");
    assert_eq!(trim_hex_prefix("0X12"), "0X12");
    assert_eq!(trim_hex_prefix("0x0x"), "");
}

#[test]
fn key_is_read_without_prefix() {
    let wf = WalletFile {
        address: "0xabc".to_string(),
        private_key_hex: "0x4c0883a69102937d6231471b5dbb6204fe512961708279f2e3e8a5d4b8e3e8b1".to_string(),
        created: "2024-01-01T00:00:00Z".to_string(),
        note: String::new(),
    };
    assert_eq!(wallet_private_key(&wf), "4c0883a69102937d6231471b5dbb6204fe512961708279f2e3e8a5d4b8e3e8b1");
}

#[test]
fn new_wallet_file_writes_key_and_its_address() {
    let mut key = [0u8; 32];
    key[31] = 1;
    let wf = new_wallet_file(&key, "2024-05-06T07:08:09Z".to_string());
    assert_eq!(wf.address, "0x7e5f4552091a69125d5dfcb7b8c2659029395bdf");
    assert_eq!(wf.private_key_hex, "0000000000000000000000000000000000000000000000000000000000000001");
    assert_eq!(wf.created, "2024-05-06T07:08:09Z");
    assert_eq!(wf.note, WALLET_NOTE);
    assert_eq!(wf.note, "PFFT miner wallet — JAGA KERAHASIAANNYA!");
}

#[test]
fn key_read_back_from_a_new_wallet_is_the_key_written() {
    let mut key = [0u8; 32];
    for i in 0..32 {
        key[i] = (i as u8).wrapping_mul(37).wrapping_add(5);
    }
    let wf = new_wallet_file(&key, String::new());
    let read = wallet_private_key(&wf);
    assert_eq!(read, wf.private_key_hex);
    assert_eq!(parse_key_hex(&read), Some(key));
}

#[test]
fn trimming_twice_changes_nothing_more() {
    for s in ["0x0x0xff", "0xab", "x0", "", "0x", "0x0", "ab0x"] {
        let once = trim_hex_prefix(s);
        assert_eq!(trim_hex_prefix(&once), once);
        assert!(!once.starts_with("0x"));
    }
}
