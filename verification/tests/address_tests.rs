use wallet_tracker::address::valid_eth_address;

#[test]
fn accepts_known_checksummed_addresses() {
    assert!(valid_eth_address("0x5aAeb6053F3E94C9b9A09f33669435E7Ef1BeAed"));
    assert!(valid_eth_address("0xfB6916095ca1df60bB79Ce92cE3Ea74c37c5d359"));
    assert!(valid_eth_address("0xdbF03B407c01E7cD3CBea99509d93f8DDDC8C6FB"));
    assert!(valid_eth_address("0xD1220A0cf47c7B9Be7A2E6BA89F429762e7b9aDb"));
}

#[test]
fn rejects_wrongly_cased_variants() {
    // only the correctly-cased checksum form validates
    assert!(!valid_eth_address("0x5aaeb6053f3e94c9b9a09f33669435e7ef1beaed"));
    assert!(!valid_eth_address("0x5AAEB6053F3E94C9B9A09F33669435E7EF1BEAED"));
    assert!(!valid_eth_address("0xfb6916095ca1df60bb79ce92ce3ea74c37c5d359"));
    assert!(!valid_eth_address("0xFB6916095CA1DF60BB79CE92CE3EA74C37C5D359"));
}

#[test]
fn rejects_strings_of_other_lengths() {
    assert!(!valid_eth_address(""));
    assert!(!valid_eth_address("0x"));
    assert!(!valid_eth_address("0x5aAeb6053F3E94C9b9A09f33669435E7Ef1BeAe"));
    assert!(!valid_eth_address("0x5aAeb6053F3E94C9b9A09f33669435E7Ef1BeAed0"));
    assert!(!valid_eth_address("5aAeb6053F3E94C9b9A09f33669435E7Ef1BeAed"));
}

#[test]
fn rejects_bad_prefix_or_non_hex() {
    assert!(!valid_eth_address("1x5aAeb6053F3E94C9b9A09f33669435E7Ef1BeAed"));
    assert!(!valid_eth_address("0y5aAeb6053F3E94C9b9A09f33669435E7Ef1BeAed"));
    assert!(!valid_eth_address("0x5aAeb6053F3E94C9b9A09f33669435E7Ef1BeAez"));
    assert!(!valid_eth_address("0x5aAeb6053F3E94C9b9A09f33669435E7Ef1Be ed"));
}

#[test]
fn rejects_non_ascii_input() {
    assert!(!valid_eth_address("0x5aAeb6053F3E94C9b9A09f33669435E7Ef1BeA\u{e9}d"));
    assert!(!valid_eth_address("\u{2603}"));
}
