use pfft_miner::signer::{
    check_signer_inputs, hex_digit_value, is_valid_secret_key, parse_key_hex, SignerInputError,
};

const RPC: &str = "https://ethereum-rpc.publicnode.com";
const KEY_ONE: &str = "0000000000000000000000000000000000000000000000000000000000000001";
const ORDER: &str = "fffffffffffffffffffffffffffffffebaaedce6af48a03bbfd25e8cd0364141";
const ORDER_MINUS_ONE: &str = "fffffffffffffffffffffffffffffffebaaedce6af48a03bbfd25e8cd0364140";

fn address_of_one() -> [u8; 20] {
    [
        0x7e, 0x5f, 0x45, 0x52, 0x09, 0x1a, 0x69, 0x12, 0x5d, 0x5d, 0xfc, 0xb7, 0xb8, 0xc2, 0x65,
        0x90, 0x29, 0x39, 0x5b, 0xdf,
    ]
}

#[test]
fn key_one_signs_for_its_known_address() {
    let mut one = [0u8; 32];
    one[31] = 1;
    assert_eq!(check_signer_inputs(RPC, KEY_ONE), Ok((one, address_of_one())));
    let prefixed = format!("0x{KEY_ONE}");
    assert_eq!(check_signer_inputs(RPC, &prefixed), Ok((one, address_of_one())));
    let upper = format!("0X{KEY_ONE}");
    assert_eq!(check_signer_inputs(RPC, &upper), Ok((one, address_of_one())));
}

#[test]
fn url_is_checked_before_the_key() {
    assert_eq!(check_signer_inputs("not a url", KEY_ONE), Err(SignerInputError::InvalidRpcUrl));
    assert_eq!(check_signer_inputs("not a url", "zz"), Err(SignerInputError::InvalidRpcUrl));
    assert_eq!(check_signer_inputs("", "zz"), Err(SignerInputError::InvalidRpcUrl));
}

#[test]
fn malformed_keys_are_refused() {
    for bad in [
        "",
        "0x",
        "00000000000000000000000000000000000000000000000000000000000001",
        "000000000000000000000000000000000000000000000000000000000000000001",
        "g000000000000000000000000000000000000000000000000000000000000001",
        "0x0x00000000000000000000000000000000000000000000000000000000000001",
    ] {
        assert_eq!(check_signer_inputs(RPC, bad), Err(SignerInputError::InvalidPrivateKey));
    }
}

#[test]
fn only_secret_scalars_are_keys() {
    let zero = "0".repeat(64);
    assert_eq!(check_signer_inputs(RPC, &zero), Err(SignerInputError::InvalidPrivateKey));
    assert_eq!(check_signer_inputs(RPC, ORDER), Err(SignerInputError::InvalidPrivateKey));
    assert_eq!(check_signer_inputs(RPC, &"f".repeat(64)), Err(SignerInputError::InvalidPrivateKey));
    assert!(check_signer_inputs(RPC, ORDER_MINUS_ONE).is_ok());
    assert!(!is_valid_secret_key(&[0u8; 32]));
    assert!(is_valid_secret_key(&parse_key_hex(ORDER_MINUS_ONE).unwrap()));
    assert!(!is_valid_secret_key(&parse_key_hex(ORDER).unwrap()));
}

#[test]
fn hex_parses_both_cases() {
    let k = parse_key_hex("0xABcdEF0000000000000000000000000000000000000000000000000000000000").unwrap();
    assert_eq!(k[..3], [0xab, 0xcd, 0xef]);
    assert!(k[3..].iter().all(|&b| b == 0));
    assert_eq!(hex_digit_value('7'), Some(7));
    assert_eq!(hex_digit_value('a'), Some(10));
    assert_eq!(hex_digit_value('F'), Some(15));
    assert_eq!(hex_digit_value('g'), None);
    assert_eq!(hex_digit_value('x'), None);
}
