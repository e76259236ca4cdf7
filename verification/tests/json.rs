use wallet_core::amount::Amount;
use wallet_core::encoding::decode_hex;
use wallet_core::error::{HexError, TxProposalError};
use wallet_core::json::{
    AmountJSON, InputTxoJSON, OutputTxoJSON, RingAmountJSON, RingInputSecretJSON, RingJSON,
    RingMemberJSON, SigningDataJSON, TxProposalJSON, TxSigningDataJSON, UnsignedInputTxoJSON,
    payload_txos_from_outlays, UnsignedTxProposalJSON, VerifySignatureJSON,
    CONFIRMATION_NUMBER_LEN,
};
use wallet_core::tx_proposal::{
    attach_key_images, InputRing, InputSecret, InputTxo, OutputTxo, ReducedTxOut,
    SignableInputRing, SigningData, Tx, TxProposal, TxSigningData, UnsignedInputTxo,
    UnsignedTxProposal,
};

fn input() -> InputTxo {
    InputTxo {
        tx_out: vec![0x00, 0x01, 0x0f, 0x10, 0xab, 0xff],
        subaddress_index: 18_446_744_073_709_551_615,
        key_image: vec![0xde, 0xad],
        amount: Amount::new(1_000_000, 0),
    }
}

fn input_json() -> InputTxoJSON {
    InputTxoJSON {
        tx_out_proto: "00010f10abff".to_string(),
        amount: AmountJSON { value: "1000000".to_string(), token_id: "0".to_string() },
        subaddress_index: "18446744073709551615".to_string(),
        key_image: "dead".to_string(),
    }
}

fn output(name: &str, value: u64) -> OutputTxo {
    OutputTxo {
        tx_out: vec![0x7f, 0x80],
        recipient_public_address_b58: name.to_string(),
        confirmation_number: vec![0x09; 32],
        amount: Amount::new(value, 42),
    }
}

fn output_json(name: &str, value: &str) -> OutputTxoJSON {
    OutputTxoJSON {
        tx_out_proto: "7f80".to_string(),
        amount: AmountJSON { value: value.to_string(), token_id: "42".to_string() },
        recipient_public_address_b58: name.to_string(),
        confirmation_number: "09".repeat(32),
    }
}

#[test]
fn bytes_are_written_in_lowercase_hexadecimal_and_numbers_in_decimal() {
    assert_eq!(InputTxoJSON::from(&input()), input_json());
    assert_eq!(OutputTxoJSON::try_from(&output("addr", 10)), Ok(output_json("addr", "10")));
    assert_eq!(
        AmountJSON::from(&Amount::new(0, 10)),
        AmountJSON { value: "0".to_string(), token_id: "10".to_string() }
    );
    let empty = InputTxo { tx_out: vec![], subaddress_index: 0, key_image: vec![], amount: Amount::new(9, 9) };
    assert_eq!(InputTxoJSON::from(&empty).tx_out_proto, "");
}

#[test]
fn a_proposal_is_written_with_its_fee_and_tombstone() {
    let proposal = TxProposal {
        tx: Tx { proto: vec![0xc0, 0xff, 0xee], fee: Amount::new(400_000_000, 0), tombstone_block: 23 },
        input_txos: vec![input(), input()],
        payload_txos: vec![output("a", 1), output("b", 2)],
        change_txos: vec![output("c", 3)],
    };
    assert_eq!(
        TxProposalJSON::try_from(&proposal),
        Ok(TxProposalJSON {
            input_txos: vec![input_json(), input_json()],
            payload_txos: vec![output_json("a", "1"), output_json("b", "2")],
            change_txos: vec![output_json("c", "3")],
            fee_amount: AmountJSON { value: "400000000".to_string(), token_id: "0".to_string() },
            tombstone_block_index: "23".to_string(),
            tx_proto: "c0ffee".to_string(),
        })
    );
}

fn signable() -> SignableInputRing {
    SignableInputRing {
        members: vec![
            ReducedTxOut { public_key: vec![1], target_key: vec![2], commitment: vec![3] },
            ReducedTxOut { public_key: vec![4], target_key: vec![5], commitment: vec![6] },
        ],
        real_input_index: 1,
        input_secret: InputSecret { amount: Amount::new(77, 3), blinding: vec![0xbb; 2] },
    }
}

fn signing_data(rings: Vec<InputRing>) -> TxSigningData {
    TxSigningData {
        tx_prefix: vec![0x0a],
        rings,
        signing_data: SigningData {
            extended_message: vec![0xe0, 0x0e],
            pseudo_output_blindings: vec![vec![1, 2], vec![]],
            pseudo_output_commitments: vec![vec![0xcc]],
            range_proof_bytes: vec![0x0f],
            range_proofs: vec![vec![0xaa], vec![0xbb], vec![0xcc]],
            pseudo_output_token_ids: vec![0, 1],
            output_token_ids: vec![2],
        },
        input_txos: vec![input()],
        payload_txos: vec![output("a", 1)],
        change_txos: vec![output("c", 3)],
    }
}

#[test]
fn signing_data_is_written_ring_by_ring() {
    let json = TxSigningDataJSON::try_from(signing_data(vec![InputRing::Signable(signable())]));
    assert_eq!(
        json,
        Ok(TxSigningDataJSON {
            tx_prefix: "0a".to_string(),
            rings: vec![RingJSON {
                members: vec![
                    RingMemberJSON {
                        compressed_ristretto_public: "01".to_string(),
                        compressed_ristretto_target: "02".to_string(),
                        compressed_commitment: "03".to_string(),
                    },
                    RingMemberJSON {
                        compressed_ristretto_public: "04".to_string(),
                        compressed_ristretto_target: "05".to_string(),
                        compressed_commitment: "06".to_string(),
                    },
                ],
                real_input_index: 1,
                input_secret: RingInputSecretJSON {
                    value: RingAmountJSON { value: "77".to_string(), token_id: "3".to_string() },
                    blinding: "bbbb".to_string(),
                },
            }],
            signing_data: SigningDataJSON {
                extended_message: "e00e".to_string(),
                pseudo_output_blindings: vec!["0102".to_string(), "".to_string()],
                pseudo_output_commitments: vec!["cc".to_string()],
                range_proof_bytes: "0f".to_string(),
                range_proofs: vec!["aa".to_string(), "bb".to_string(), "cc".to_string()],
                pseudo_output_token_ids: vec![0, 1],
                output_token_ids: vec![2],
            },
            input_txos: vec![input_json()],
            payload_txos: vec![output_json("a", "1")],
            change_txos: vec![output_json("c", "3")],
        })
    );
    assert_eq!(RingJSON::from(&signable()).real_input_index, 1);
}

#[test]
fn signing_data_with_a_presigned_ring_has_no_json() {
    let rings = vec![InputRing::Signable(signable()), InputRing::Presigned];
    assert_eq!(TxSigningDataJSON::try_from(signing_data(rings)), Err("Error".to_string()));
    assert!(TxSigningDataJSON::try_from(signing_data(vec![])).is_ok());
}

#[test]
fn json_models_start_out_empty() {
    assert_eq!(TxProposalJSON::default().tx_proto, "");
    assert_eq!(VerifySignatureJSON::default().ring, vec![]);
    assert_eq!(TxSigningDataJSON::default().signing_data, SigningDataJSON::default());
}

#[test]
fn every_input_gets_the_key_image_of_its_signature() {
    let unsigned = |byte: u8, index: u64| UnsignedInputTxo {
        tx_out: vec![byte],
        subaddress_index: index,
        amount: Amount::new(byte as u64, 0),
    };
    let inputs = vec![unsigned(1, 10), unsigned(2, 20)];
    assert_eq!(attach_key_images(&inputs, &vec![vec![0xa1]]), None);
    assert_eq!(attach_key_images(&inputs, &vec![]), None);
    assert_eq!(
        attach_key_images(&inputs, &vec![vec![0xa1], vec![0xa2], vec![0xa3]]),
        Some(vec![
            InputTxo { tx_out: vec![1], subaddress_index: 10, key_image: vec![0xa1], amount: Amount::new(1, 0) },
            InputTxo { tx_out: vec![2], subaddress_index: 20, key_image: vec![0xa2], amount: Amount::new(2, 0) },
        ])
    );
    assert_eq!(attach_key_images(&vec![], &vec![]), Some(vec![]));
}

fn proposal() -> TxProposal {
    TxProposal {
        tx: Tx { proto: vec![0xc0, 0xff, 0xee], fee: Amount::new(400_000_000, 0), tombstone_block: 23 },
        input_txos: vec![input(), input()],
        payload_txos: vec![output("a", 1), output("b", 2)],
        change_txos: vec![output("c", 3)],
    }
}

#[test]
fn a_proposal_is_read_back_from_its_json() {
    let json = TxProposalJSON::try_from(&proposal()).unwrap();
    assert_eq!(TxProposal::try_from(&json), Ok(proposal()));
    assert_eq!(input_json().to_input_txo(), Ok(input()));
    assert_eq!(output_json("a", "1").to_output_txo(), Ok(output("a", 1)));
}

#[test]
fn digits_of_either_case_and_a_plus_are_read() {
    let json = InputTxoJSON {
        tx_out_proto: "00010F10aBfF".to_string(),
        amount: AmountJSON { value: "+1000000".to_string(), token_id: "000".to_string() },
        subaddress_index: "18446744073709551615".to_string(),
        key_image: "DEAD".to_string(),
    };
    assert_eq!(json.to_input_txo(), Ok(input()));
    assert_eq!(decode_hex(&"".to_string()), Ok(vec![]));
    assert_eq!(decode_hex(&"fF00".to_string()), Ok(vec![0xff, 0x00]));
}

#[test]
fn texts_that_are_not_hexadecimal_are_refused() {
    assert_eq!(decode_hex(&"abc".to_string()), Err(HexError::OddLength));
    assert_eq!(
        decode_hex(&"0g0h".to_string()),
        Err(HexError::InvalidHexCharacter { c: 'g', index: 1 })
    );
    assert_eq!(
        decode_hex(&"00 1".to_string()),
        Err(HexError::InvalidHexCharacter { c: ' ', index: 2 })
    );
    // An odd length is reported before any character.
    assert_eq!(decode_hex(&"zz0".to_string()), Err(HexError::OddLength));
}

#[test]
fn numbers_must_be_decimal_and_fit() {
    let amount = |value: &str, token_id: &str| {
        AmountJSON { value: value.to_string(), token_id: token_id.to_string() }.to_amount()
    };
    assert_eq!(amount("18446744073709551615", "0"), Ok(Amount::new(u64::MAX, 0)));
    assert_eq!(amount("0018", "+7"), Ok(Amount::new(18, 7)));
    for bad in ["", "+", "-1", "1 ", " 1", "1_000", "0x10", "18446744073709551616", "++1", "1.0"] {
        assert_eq!(amount(bad, "0"), Err(TxProposalError::InvalidNumber));
        assert_eq!(amount("0", bad), Err(TxProposalError::InvalidNumber));
    }
}

#[test]
fn the_first_field_that_is_not_in_order_decides() {
    // Of an input: the key image, then the output, then the index, then the amount.
    let mut json = input_json();
    json.amount.token_id = "x".to_string();
    assert_eq!(json.to_input_txo(), Err(TxProposalError::InvalidNumber));
    json.tx_out_proto = "0".to_string();
    assert_eq!(json.to_input_txo(), Err(TxProposalError::FromHex(HexError::OddLength)));
    json.key_image = "zz".to_string();
    assert_eq!(
        json.to_input_txo(),
        Err(TxProposalError::FromHex(HexError::InvalidHexCharacter { c: 'z', index: 0 }))
    );
    // Of an output: the confirmation number and its length come first.
    assert_eq!(CONFIRMATION_NUMBER_LEN, 32);
    let mut json = output_json("a", "1");
    json.tx_out_proto = "q0".to_string();
    json.confirmation_number = "09".repeat(31);
    assert_eq!(json.to_output_txo(), Err(TxProposalError::ConfirmationNumberLength(31)));
    json.confirmation_number = "09".repeat(32);
    assert_eq!(
        json.to_output_txo(),
        Err(TxProposalError::FromHex(HexError::InvalidHexCharacter { c: 'q', index: 0 }))
    );
}

#[test]
fn the_first_part_of_a_proposal_that_is_not_in_order_decides() {
    let mut json = TxProposalJSON::try_from(&proposal()).unwrap();
    json.tombstone_block_index = "soon".to_string();
    assert_eq!(TxProposal::try_from(&json), Err(TxProposalError::InvalidNumber));
    json.change_txos[0].confirmation_number = "".to_string();
    assert_eq!(TxProposal::try_from(&json), Err(TxProposalError::ConfirmationNumberLength(0)));
    json.payload_txos[1].tx_out_proto = "7".to_string();
    assert_eq!(TxProposal::try_from(&json), Err(TxProposalError::FromHex(HexError::OddLength)));
    json.input_txos[1].subaddress_index = "-0".to_string();
    assert_eq!(TxProposal::try_from(&json), Err(TxProposalError::InvalidNumber));
    json.input_txos[0].key_image = "0k".to_string();
    assert_eq!(
        TxProposal::try_from(&json),
        Err(TxProposalError::FromHex(HexError::InvalidHexCharacter { c: 'k', index: 1 }))
    );
    json.tx_proto = "c0ffe".to_string();
    assert_eq!(TxProposal::try_from(&json), Err(TxProposalError::FromHex(HexError::OddLength)));
}

#[test]
fn an_unsigned_proposal_is_read_from_its_json() {
    let mut json = UnsignedTxProposalJSON {
        unsigned_tx_proto_bytes_hex: "0a0B".to_string(),
        unsigned_input_txos: vec![UnsignedInputTxoJSON {
            tx_out_proto: "01".to_string(),
            amount: AmountJSON { value: "5".to_string(), token_id: "1".to_string() },
            subaddress_index: "2".to_string(),
        }],
        payload_txos: vec![output_json("a", "1")],
        change_txos: vec![],
    };
    assert_eq!(
        UnsignedTxProposal::try_from(&json),
        Ok(UnsignedTxProposal {
            unsigned_tx: vec![0x0a, 0x0b],
            unsigned_input_txos: vec![UnsignedInputTxo {
                tx_out: vec![1],
                subaddress_index: 2,
                amount: Amount::new(5, 1)
            }],
            payload_txos: vec![output("a", 1)],
            change_txos: vec![],
        })
    );
    // The transaction itself is read last.
    json.unsigned_tx_proto_bytes_hex = "0".to_string();
    assert_eq!(
        UnsignedTxProposal::try_from(&json),
        Err(TxProposalError::FromHex(HexError::OddLength))
    );
    json.payload_txos[0].amount.value = "".to_string();
    assert_eq!(UnsignedTxProposal::try_from(&json), Err(TxProposalError::InvalidNumber));
    json.unsigned_input_txos[0].tx_out_proto = "0x".to_string();
    assert_eq!(
        UnsignedTxProposal::try_from(&json),
        Err(TxProposalError::FromHex(HexError::InvalidHexCharacter { c: 'x', index: 1 }))
    );
}

#[test]
fn characters_beyond_ascii_are_no_digits() {
    let amount = |value: &str| {
        AmountJSON { value: value.to_string(), token_id: "0".to_string() }.to_amount()
    };
    // Digits of other scripts and of full width.
    assert_eq!(amount("\u{661}\u{662}"), Err(TxProposalError::InvalidNumber));
    assert_eq!(amount("\u{ff11}\u{ff12}"), Err(TxProposalError::InvalidNumber));
    // A text is decoded byte by byte: a character of two bytes counts as two.
    assert_eq!(decode_hex(&"\u{e9}0".to_string()), Err(HexError::OddLength));
    assert_eq!(
        decode_hex(&"0a\u{e9}".to_string()),
        Err(HexError::InvalidHexCharacter { c: '\u{c3}', index: 2 })
    );
}

#[test]
fn payload_outputs_are_found_through_the_map_of_outlays() {
    let outputs = vec![vec![0xa0], vec![0xa1], vec![0xa2]];
    let outlays = vec![("first".to_string(), 10), ("second".to_string(), 20)];
    let confirmations = vec![vec![1u8; 32], vec![2u8; 32]];
    let entry = |i: &str, j: &str| (i.to_string(), j.to_string());
    assert_eq!(
        payload_txos_from_outlays(
            &outputs,
            &outlays,
            &confirmations,
            &vec![entry("1", "0"), entry("0", "2"), entry("+1", "02")]
        ),
        Ok(vec![
            OutputTxo {
                tx_out: vec![0xa0],
                recipient_public_address_b58: "second".to_string(),
                confirmation_number: vec![2; 32],
                amount: Amount::new(20, 0),
            },
            OutputTxo {
                tx_out: vec![0xa2],
                recipient_public_address_b58: "first".to_string(),
                confirmation_number: vec![1; 32],
                amount: Amount::new(10, 0),
            },
            OutputTxo {
                tx_out: vec![0xa2],
                recipient_public_address_b58: "second".to_string(),
                confirmation_number: vec![2; 32],
                amount: Amount::new(20, 0),
            },
        ])
    );
    assert_eq!(payload_txos_from_outlays(&outputs, &outlays, &confirmations, &vec![]), Ok(vec![]));
}

#[test]
fn the_first_entry_of_the_map_that_names_no_output_decides() {
    let outputs = vec![vec![0xa0], vec![0xa1]];
    let outlays = vec![("first".to_string(), 10), ("second".to_string(), 20), ("third".to_string(), 30)];
    let confirmations = vec![vec![1u8; 32], vec![2u8; 31]];
    let entry = |i: &str, j: &str| (i.to_string(), j.to_string());
    let convert = |entries: Vec<(String, String)>| {
        payload_txos_from_outlays(&outputs, &outlays, &confirmations, &entries)
    };
    assert_eq!(convert(vec![entry("x", "9")]), Err(TxProposalError::InvalidNumber));
    // The index of the outlay is held against the outlays before the other is read.
    assert_eq!(convert(vec![entry("3", "x")]), Err(TxProposalError::IndexOutOfRange));
    assert_eq!(convert(vec![entry("0", "x")]), Err(TxProposalError::InvalidNumber));
    assert_eq!(convert(vec![entry("0", "2")]), Err(TxProposalError::IndexOutOfRange));
    // The third outlay has no confirmation number, the second one of 31 bytes.
    assert_eq!(convert(vec![entry("2", "0")]), Err(TxProposalError::IndexOutOfRange));
    assert_eq!(convert(vec![entry("1", "0")]), Err(TxProposalError::ConfirmationNumberLength(31)));
    assert_eq!(
        convert(vec![entry("0", "1"), entry("1", "9"), entry("x", "0")]),
        Err(TxProposalError::IndexOutOfRange)
    );
    assert_eq!(
        convert(vec![entry("0", "1"), entry("18446744073709551616", "0")]),
        Err(TxProposalError::InvalidNumber)
    );
}
