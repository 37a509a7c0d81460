use std::collections::hash_map::DefaultHasher;
use std::hash::{Hash, Hasher};
use txconflict::codec::{HexFault, KeyError, KeyField};
use txconflict::flat::flat_key;
use txconflict::types::Key;

fn sample() -> Key {
    let mut address = [0u8; 20];
    let mut slot = [0u8; 32];
    for i in 0..20 {
        address[i] = (i as u8) * 13 + 1;
    }
    for i in 0..32 {
        slot[i] = 255 - (i as u8) * 7;
    }
    Key { address, slot }
}

/// Whether this machine lays out a `usize` as eight bytes, the low one first.
fn eight_low_first() -> bool {
    usize::BITS == 64 && 1u16.to_ne_bytes() == [1, 0]
}

#[test]
fn flat_key_is_the_same_each_time() {
    let key = sample();
    let first = flat_key(&key);
    // another derivation in between leaves no trace
    let _ = flat_key(&Key {
        address: [1; 20],
        slot: [2; 32],
    });
    assert_eq!(flat_key(&key), first);
    assert_eq!(flat_key(&sample()), first);
}

#[test]
fn flat_key_tells_keys_apart() {
    let key = sample();
    let mut other = key;
    other.slot[31] ^= 1;
    assert_ne!(flat_key(&key), flat_key(&other));
    let mut third = key;
    third.address[0] ^= 1;
    assert_ne!(flat_key(&key), flat_key(&third));
}

#[test]
fn flat_key_is_the_digest_of_the_derived_hash() {
    if eight_low_first() {
        for key in [
            sample(),
            Key {
                address: [0; 20],
                slot: [0; 32],
            },
        ] {
            let mut hasher = DefaultHasher::new();
            key.hash(&mut hasher);
            assert_eq!(flat_key(&key), hasher.finish());
        }
    }
}

#[test]
fn to_hex_writes_prefix_and_lower_case_digits() {
    let mut address = [0u8; 20];
    address[0] = 0xab;
    address[1] = 0x0f;
    address[19] = 0x10;
    let mut slot = [0xffu8; 32];
    slot[0] = 0x00;
    slot[31] = 0x9c;
    let (a, s) = Key { address, slot }.to_hex();
    assert_eq!(a, "0xab0f000000000000000000000000000000000010");
    assert_eq!(
        s,
        "0x00ffffffffffffffffffffffffffffffffffffffffffffffffffffffffffff9c"
    );
}

#[test]
fn from_hex_reads_either_case() {
    let address = "0xAB0f00000000000000000000000000000000001A";
    let slot = "0x00FFffffffffffffffffffffffffffffffffffffffffffffffffffffffffff9C";
    let key = Key::from_hex(address, slot).unwrap();
    let mut want_address = [0u8; 20];
    want_address[0] = 0xab;
    want_address[1] = 0x0f;
    want_address[19] = 0x1a;
    let mut want_slot = [0xffu8; 32];
    want_slot[0] = 0x00;
    want_slot[31] = 0x9c;
    assert_eq!(
        key,
        Key {
            address: want_address,
            slot: want_slot
        }
    );
}

#[test]
fn round_trip() {
    for key in [
        sample(),
        Key {
            address: [0; 20],
            slot: [0; 32],
        },
        Key {
            address: [0xff; 20],
            slot: [0xff; 32],
        },
    ] {
        let (address, slot) = key.to_hex();
        assert_eq!(address.len(), 42);
        assert_eq!(slot.len(), 66);
        assert_eq!(Key::from_hex(&address, &slot), Ok(key));
    }
}

#[test]
fn from_hex_takes_text_without_prefix_or_with_several() {
    let (address, slot) = sample().to_hex();
    let bare_address = &address[2..];
    let doubled_slot = format!("0x{}", slot);
    assert_eq!(Key::from_hex(bare_address, &doubled_slot), Ok(sample()));
}

#[test]
fn short_address_is_malformed() {
    let (_, slot) = sample().to_hex();
    assert_eq!(
        Key::from_hex("0x0102", &slot),
        Err(KeyError::MalformedKey {
            field: KeyField::Address,
            len: 2
        })
    );
}

#[test]
fn long_address_is_malformed() {
    let (address, slot) = sample().to_hex();
    let long = format!("{}00", address);
    assert_eq!(
        Key::from_hex(&long, &slot),
        Err(KeyError::MalformedKey {
            field: KeyField::Address,
            len: 21
        })
    );
}

#[test]
fn empty_address_is_malformed() {
    let (_, slot) = sample().to_hex();
    assert_eq!(
        Key::from_hex("0x", &slot),
        Err(KeyError::MalformedKey {
            field: KeyField::Address,
            len: 0
        })
    );
}

#[test]
fn short_slot_is_malformed() {
    let (address, slot) = sample().to_hex();
    assert_eq!(
        Key::from_hex(&address, &slot[..64]),
        Err(KeyError::MalformedKey {
            field: KeyField::Slot,
            len: 31
        })
    );
}

#[test]
fn slot_of_address_length_is_malformed() {
    let (address, _) = sample().to_hex();
    assert_eq!(
        Key::from_hex(&address, &address),
        Err(KeyError::MalformedKey {
            field: KeyField::Slot,
            len: 20
        })
    );
}

#[test]
fn the_address_is_measured_first() {
    assert_eq!(
        Key::from_hex("0x01", "0x02"),
        Err(KeyError::MalformedKey {
            field: KeyField::Address,
            len: 1
        })
    );
}

#[test]
fn odd_number_of_digits_is_not_hex() {
    let (address, slot) = sample().to_hex();
    assert_eq!(
        Key::from_hex(&address[..41], &slot),
        Err(KeyError::InvalidHex {
            field: KeyField::Address,
            fault: HexFault::OddLength
        })
    );
    assert_eq!(
        Key::from_hex(&address, &slot[..65]),
        Err(KeyError::InvalidHex {
            field: KeyField::Slot,
            fault: HexFault::OddLength
        })
    );
}

#[test]
fn other_characters_are_not_hex() {
    let (address, slot) = sample().to_hex();
    let bad_address = format!("0x{}g{}", &address[2..10], &address[11..]);
    assert_eq!(bad_address.len(), 42);
    assert_eq!(
        Key::from_hex(&bad_address, &slot),
        Err(KeyError::InvalidHex {
            field: KeyField::Address,
            fault: HexFault::InvalidHexCharacter { c: 'g', index: 8 }
        })
    );
    let bad_slot = format!("0x{}\u{e9}{}", &slot[2..10], &slot[12..]);
    // the place and the character are those of the first byte of the letter
    assert_eq!(
        Key::from_hex(&address, &bad_slot),
        Err(KeyError::InvalidHex {
            field: KeyField::Slot,
            fault: HexFault::InvalidHexCharacter {
                c: '\u{c3}',
                index: 8
            }
        })
    );
    // a prefix in the middle is not dropped
    let inner = format!("0x00{}", &address[..40]);
    assert_eq!(
        Key::from_hex(&inner, &slot),
        Err(KeyError::InvalidHex {
            field: KeyField::Address,
            fault: HexFault::InvalidHexCharacter { c: 'x', index: 3 }
        })
    );
}

#[test]
fn text_that_is_not_hex_is_told_before_any_length() {
    // the address is too short, but the slot is no hexadecimal text at all
    assert_eq!(
        Key::from_hex("0x01", "0xzz"),
        Err(KeyError::InvalidHex {
            field: KeyField::Slot,
            fault: HexFault::InvalidHexCharacter { c: 'z', index: 0 }
        })
    );
}

#[test]
fn the_second_digit_of_a_pair_is_looked_at_too() {
    let (address, slot) = sample().to_hex();
    let bad = format!("0x{}-{}", &address[2..5], &address[6..]);
    assert_eq!(
        Key::from_hex(&bad, &slot),
        Err(KeyError::InvalidHex {
            field: KeyField::Address,
            fault: HexFault::InvalidHexCharacter { c: '-', index: 3 }
        })
    );
}

#[test]
fn an_odd_length_is_told_before_any_character() {
    assert_eq!(
        Key::from_hex("0xzzz", "0x00"),
        Err(KeyError::InvalidHex {
            field: KeyField::Address,
            fault: HexFault::OddLength
        })
    );
}

#[test]
fn faults_in_words() {
    assert_eq!(
        KeyError::MalformedKey {
            field: KeyField::Address,
            len: 3
        }
        .message(),
        "address must be 20 bytes"
    );
    assert_eq!(
        KeyError::MalformedKey {
            field: KeyField::Slot,
            len: 3
        }
        .message(),
        "slot must be 32 bytes"
    );
    assert_eq!(
        Key::from_hex("0x123", "0x").unwrap_err().message(),
        "Odd number of digits"
    );
    assert_eq!(
        Key::from_hex("0x12g4", "0x").unwrap_err().message(),
        "Invalid character 'g' at position 2"
    );
    assert_eq!(
        KeyError::InvalidHex {
            field: KeyField::Slot,
            fault: HexFault::InvalidStringLength
        }
        .message(),
        "Invalid string length"
    );
}
