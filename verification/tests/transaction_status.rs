use turbine::pubkey::Pubkey;
use turbine::transaction_status::{
    CommitmentConfig, CommitmentLevel, CompiledInstruction, ConfirmedBlock, Encodable,
    EncodedConfirmedBlock, EncodedTransaction, InnerInstructions, Message, MessageHeader,
    ParsedInstruction, Reward, RewardType, SerializedTransaction,
    TransactionConfirmationStatus, TransactionDetails, TransactionStatus,
    TransactionWithStatusMeta, UiCompiledInstruction, UiConfirmedBlock, UiInnerInstructions,
    UiInstruction, UiParsedInstruction, UiPartiallyDecodedInstruction, UiRawMessage,
    UiTransactionEncoding,
};

fn status(
    confirmations: Option<usize>,
    confirmation_status: Option<TransactionConfirmationStatus>,
) -> TransactionStatus {
    TransactionStatus { slot: 0, confirmations, confirmation_status }
}

#[test]
fn test_satisfies_commitment() {
    let status_a = status(None, Some(TransactionConfirmationStatus::Finalized));

    assert!(status_a.satisfies_commitment(CommitmentConfig::finalized()));
    assert!(status_a.satisfies_commitment(CommitmentConfig::confirmed()));
    assert!(status_a.satisfies_commitment(CommitmentConfig::processed()));

    let status_b = status(Some(10), Some(TransactionConfirmationStatus::Confirmed));

    assert!(!status_b.satisfies_commitment(CommitmentConfig::finalized()));
    assert!(status_b.satisfies_commitment(CommitmentConfig::confirmed()));
    assert!(status_b.satisfies_commitment(CommitmentConfig::processed()));

    let status_c = status(Some(1), Some(TransactionConfirmationStatus::Processed));

    assert!(!status_c.satisfies_commitment(CommitmentConfig::finalized()));
    assert!(!status_c.satisfies_commitment(CommitmentConfig::confirmed()));
    assert!(status_c.satisfies_commitment(CommitmentConfig::processed()));

    let status_d = status(Some(0), None);

    assert!(!status_d.satisfies_commitment(CommitmentConfig::finalized()));
    assert!(!status_d.satisfies_commitment(CommitmentConfig::confirmed()));
    assert!(status_d.satisfies_commitment(CommitmentConfig::processed()));

    // Test single_gossip fallback cases
    let status_e = status(Some(1), None);
    assert!(!status_e.satisfies_commitment(CommitmentConfig::confirmed()));

    let status_f = status(Some(2), None);
    assert!(status_f.satisfies_commitment(CommitmentConfig::confirmed()));

    let status_g = status(None, None);
    assert!(status_g.satisfies_commitment(CommitmentConfig::confirmed()));
}

#[test]
fn test_commitment_levels_by_old_names() {
    for (level, finalized, confirmed) in [
        (CommitmentLevel::Processed, false, false),
        (CommitmentLevel::Recent, false, false),
        (CommitmentLevel::Confirmed, false, true),
        (CommitmentLevel::Single, false, true),
        (CommitmentLevel::SingleGossip, false, true),
        (CommitmentLevel::Finalized, true, false),
        (CommitmentLevel::Max, true, false),
        (CommitmentLevel::Root, true, false),
    ] {
        let config = CommitmentConfig { commitment: level };
        assert_eq!(config.is_finalized(), finalized);
        assert_eq!(config.is_confirmed(), confirmed);
        let rooted = status(None, None);
        assert!(rooted.satisfies_commitment(config));
        let pending = status(Some(1), None);
        assert_eq!(pending.satisfies_commitment(config), !finalized && !confirmed);
    }
}

#[test]
fn test_confirmation_status() {
    let processed = TransactionConfirmationStatus::Processed;
    let confirmed = TransactionConfirmationStatus::Confirmed;
    let finalized = TransactionConfirmationStatus::Finalized;
    assert_eq!(status(Some(5), Some(processed)).confirmation_status(), processed);
    assert_eq!(status(None, Some(confirmed)).confirmation_status(), confirmed);
    assert_eq!(status(None, None).confirmation_status(), finalized);
    assert_eq!(status(Some(1), None).confirmation_status(), confirmed);
    assert_eq!(status(Some(usize::MAX), None).confirmation_status(), confirmed);
    assert_eq!(status(Some(0), None).confirmation_status(), processed);
}

#[test]
fn test_encoding_names() {
    assert_eq!(UiTransactionEncoding::Binary.to_string(), "binary");
    assert_eq!(UiTransactionEncoding::Base64.to_string(), "base64");
    assert_eq!(UiTransactionEncoding::Base58.to_string(), "base58");
    assert_eq!(UiTransactionEncoding::Json.to_string(), "json");
    assert_eq!(UiTransactionEncoding::JsonParsed.to_string(), "jsonParsed");
    assert_eq!(TransactionDetails::default(), TransactionDetails::Full);
}

#[test]
fn test_encode_and_decode_binary() {
    let bytes: Vec<u8> = vec![0x04, 0x30, 0x5e, 0x2b, 0x24, 0x73, 0xf0, 0x58];
    assert_eq!(
        EncodedTransaction::encode_binary(&bytes, UiTransactionEncoding::Binary),
        Some(EncodedTransaction::LegacyBinary("he11owor1d".to_string()))
    );
    assert_eq!(
        EncodedTransaction::encode_binary(&bytes, UiTransactionEncoding::Base58),
        Some(EncodedTransaction::Binary(
            "he11owor1d".to_string(),
            UiTransactionEncoding::Base58
        ))
    );
    assert_eq!(
        EncodedTransaction::encode_binary(&b"hello world".to_vec(), UiTransactionEncoding::Base64),
        Some(EncodedTransaction::Binary(
            "aGVsbG8gd29ybGQ=".to_string(),
            UiTransactionEncoding::Base64
        ))
    );
    assert_eq!(EncodedTransaction::encode_binary(&bytes, UiTransactionEncoding::Json), None);
    assert_eq!(
        EncodedTransaction::encode_binary(&bytes, UiTransactionEncoding::JsonParsed),
        None
    );
    for encoding in [
        UiTransactionEncoding::Binary,
        UiTransactionEncoding::Base58,
        UiTransactionEncoding::Base64,
    ] {
        let encoded = EncodedTransaction::encode_binary(&bytes, encoding).unwrap();
        assert_eq!(encoded.decode(), Some(bytes.clone()));
    }
}

#[test]
fn test_decode_rejects_what_is_no_binary_encoding() {
    let text = |s: &str| s.to_string();
    assert_eq!(
        EncodedTransaction::LegacyBinary(text("he11owor1d")).decode(),
        Some(vec![0x04, 0x30, 0x5e, 0x2b, 0x24, 0x73, 0xf0, 0x58])
    );
    // The letter l is no base-58 digit.
    assert_eq!(EncodedTransaction::LegacyBinary(text("hello")).decode(), None);
    assert_eq!(
        EncodedTransaction::Binary(text("hello"), UiTransactionEncoding::Base58).decode(),
        None
    );
    assert_eq!(
        EncodedTransaction::Binary(text("aGVsbG8gd29ybGQ="), UiTransactionEncoding::Base64)
            .decode(),
        Some(b"hello world".to_vec())
    );
    assert_eq!(
        EncodedTransaction::Binary(text("aGVsbG8*d29ybGQ="), UiTransactionEncoding::Base64)
            .decode(),
        None
    );
    // A tag that names no binary format.
    for encoding in [
        UiTransactionEncoding::Binary,
        UiTransactionEncoding::Json,
        UiTransactionEncoding::JsonParsed,
    ] {
        assert_eq!(
            EncodedTransaction::Binary(text("he11owor1d"), encoding).decode(),
            None
        );
    }
}

fn instruction() -> CompiledInstruction {
    CompiledInstruction {
        program_id_index: 2,
        accounts: vec![0, 1, 0],
        data: vec![0x04, 0x30, 0x5e, 0x2b, 0x24, 0x73, 0xf0, 0x58],
    }
}

fn keys() -> Vec<Pubkey> {
    (0..3u8).map(|n| Pubkey::new_from_array([n; 32])).collect()
}

#[test]
fn test_ui_compiled_instruction() {
    let shown = UiCompiledInstruction::from(&instruction());
    assert_eq!(
        shown,
        UiCompiledInstruction {
            program_id_index: 2,
            accounts: vec![0, 1, 0],
            data: "he11owor1d".to_string(),
        }
    );
}

#[test]
fn test_ui_partially_decoded_instruction() {
    let keys = keys();
    let shown = UiPartiallyDecodedInstruction::from(&instruction(), &keys);
    assert_eq!(
        shown,
        UiPartiallyDecodedInstruction {
            program_id: bs58::encode([2u8; 32]).into_string(),
            accounts: vec![
                "11111111111111111111111111111111".to_string(),
                bs58::encode([1u8; 32]).into_string(),
                "11111111111111111111111111111111".to_string(),
            ],
            data: "he11owor1d".to_string(),
        }
    );
}

#[test]
fn test_ui_instruction_parse() {
    let keys = keys();
    let parsed = ParsedInstruction {
        program: "system".to_string(),
        program_id: keys[2].to_string(),
        parsed: serde_json::Value::Bool(true),
    };
    assert_eq!(
        UiInstruction::parse(&instruction(), &keys, Some(parsed.clone())),
        UiInstruction::Parsed(UiParsedInstruction::Parsed(parsed))
    );
    assert_eq!(
        UiInstruction::parse(&instruction(), &keys, None),
        UiInstruction::Parsed(UiParsedInstruction::PartiallyDecoded(
            UiPartiallyDecodedInstruction::from(&instruction(), &keys)
        ))
    );
}

#[test]
fn test_ui_inner_instructions() {
    let mut other = instruction();
    other.data = vec![];
    let inner = InnerInstructions { index: 4, instructions: vec![instruction(), other.clone()] };
    let shown = UiInnerInstructions::from(inner);
    assert_eq!(shown.index, 4);
    assert_eq!(
        shown.instructions,
        vec![
            UiInstruction::Compiled(UiCompiledInstruction::from(&instruction())),
            UiInstruction::Compiled(UiCompiledInstruction {
                program_id_index: 2,
                accounts: vec![0, 1, 0],
                data: String::new(),
            }),
        ]
    );
    let none = UiInnerInstructions::from(InnerInstructions { index: 0, instructions: vec![] });
    assert!(none.instructions.is_empty());
}

#[test]
fn test_ui_inner_instructions_parse() {
    let keys = keys();
    let mut other = instruction();
    other.program_id_index = 1;
    let understood = ParsedInstruction {
        program: "vote".to_string(),
        program_id: keys[1].to_string(),
        parsed: serde_json::Value::Null,
    };
    let inner = InnerInstructions {
        index: 9,
        instructions: vec![instruction(), other.clone(), instruction()],
    };
    let shown =
        UiInnerInstructions::parse(inner, &keys, vec![None, Some(understood.clone()), None]);
    assert_eq!(shown.index, 9);
    assert_eq!(
        shown.instructions,
        vec![
            UiInstruction::parse(&instruction(), &keys, None),
            UiInstruction::Parsed(UiParsedInstruction::Parsed(understood)),
            UiInstruction::parse(&instruction(), &keys, None),
        ]
    );
}

#[test]
fn test_ui_raw_message() {
    let header = MessageHeader {
        num_required_signatures: 1,
        num_readonly_signed_accounts: 0,
        num_readonly_unsigned_accounts: 1,
    };
    let message = Message {
        header,
        account_keys: keys(),
        recent_blockhash: Pubkey::new_from_array([7; 32]),
        instructions: vec![instruction()],
    };
    let shown = UiRawMessage::from(&message);
    assert_eq!(
        shown,
        UiRawMessage {
            header,
            account_keys: vec![
                "11111111111111111111111111111111".to_string(),
                bs58::encode([1u8; 32]).into_string(),
                bs58::encode([2u8; 32]).into_string(),
            ],
            recent_blockhash: bs58::encode([7u8; 32]).into_string(),
            instructions: vec![UiCompiledInstruction::from(&instruction())],
        }
    );
}

fn reward() -> Reward {
    Reward {
        pubkey: "11111111111111111111111111111111".to_string(),
        lamports: -5,
        post_balance: 77,
        reward_type: Some(RewardType::Voting),
        commission: Some(8),
    }
}

fn block() -> ConfirmedBlock<SerializedTransaction> {
    let transaction = |first: u8, serialized: &[u8]| TransactionWithStatusMeta {
        signatures: vec![vec![first; 64], vec![9; 64]],
        transaction: SerializedTransaction { serialized: serialized.to_vec() },
    };
    ConfirmedBlock {
        previous_blockhash: "previous".to_string(),
        blockhash: "this".to_string(),
        parent_slot: 41,
        transactions: vec![
            transaction(1, &[0x04, 0x30, 0x5e, 0x2b, 0x24, 0x73, 0xf0, 0x58]),
            transaction(2, b"hello world"),
        ],
        rewards: vec![reward()],
        block_time: Some(-3),
        block_height: Some(40),
    }
}

fn encoded(encoding: UiTransactionEncoding) -> Vec<Option<EncodedTransaction>> {
    vec![
        EncodedTransaction::encode_binary(
            &vec![0x04, 0x30, 0x5e, 0x2b, 0x24, 0x73, 0xf0, 0x58],
            encoding,
        ),
        EncodedTransaction::encode_binary(&b"hello world".to_vec(), encoding),
    ]
}

#[test]
fn test_configure_full() {
    let shown = block().configure(UiTransactionEncoding::Base58, TransactionDetails::Full, true);
    assert_eq!(shown.previous_blockhash, "previous");
    assert_eq!(shown.blockhash, "this");
    assert_eq!(shown.parent_slot, 41);
    assert_eq!(shown.block_time, Some(-3));
    assert_eq!(shown.block_height, Some(40));
    assert_eq!(shown.signatures, None);
    assert_eq!(shown.rewards, Some(vec![reward()]));
    let transactions = shown.transactions.unwrap();
    assert_eq!(transactions, encoded(UiTransactionEncoding::Base58));
    assert_eq!(
        transactions[0],
        Some(EncodedTransaction::Binary(
            "he11owor1d".to_string(),
            UiTransactionEncoding::Base58
        ))
    );
    // The wire form alone has no JSON form.
    let shown = block().configure(UiTransactionEncoding::Json, TransactionDetails::Full, false);
    assert_eq!(shown.transactions, Some(vec![None, None]));
    assert_eq!(shown.rewards, None);
}

#[test]
fn test_configure_signatures_and_none() {
    let shown =
        block().configure(UiTransactionEncoding::Base64, TransactionDetails::Signatures, false);
    assert_eq!(shown.transactions, None);
    assert_eq!(
        shown.signatures,
        Some(vec![
            bs58::encode(vec![1u8; 64]).into_string(),
            bs58::encode(vec![2u8; 64]).into_string(),
        ])
    );
    assert_eq!(shown.rewards, None);
    assert_eq!(shown.blockhash, "this");
    let shown =
        block().configure(UiTransactionEncoding::Base64, TransactionDetails::NoDetails, true);
    assert_eq!(shown.transactions, None);
    assert_eq!(shown.signatures, None);
    assert_eq!(shown.rewards, Some(vec![reward()]));
    assert_eq!(shown.parent_slot, 41);
    // A block without transactions has no signatures to show, not none.
    let mut empty = block();
    empty.transactions.clear();
    let shown = empty.configure(UiTransactionEncoding::Base64, TransactionDetails::Signatures, true);
    assert_eq!(shown.signatures, Some(vec![]));
}

#[test]
fn test_confirmed_block_encode_and_back() {
    let encoded_block = block().encode(UiTransactionEncoding::Base64);
    assert_eq!(encoded_block.previous_blockhash, "previous");
    assert_eq!(encoded_block.blockhash, "this");
    assert_eq!(encoded_block.parent_slot, 41);
    assert_eq!(encoded_block.transactions, encoded(UiTransactionEncoding::Base64));
    assert_eq!(encoded_block.rewards, vec![reward()]);
    assert_eq!(encoded_block.block_time, Some(-3));
    assert_eq!(encoded_block.block_height, Some(40));
    let shown = UiConfirmedBlock::from(encoded_block);
    assert_eq!(shown.transactions, Some(encoded(UiTransactionEncoding::Base64)));
    assert_eq!(shown.signatures, None);
    assert_eq!(shown.rewards, Some(vec![reward()]));
    let back = EncodedConfirmedBlock::from(shown);
    assert_eq!(back.transactions, encoded(UiTransactionEncoding::Base64));
    assert_eq!(back.rewards, vec![reward()]);
    assert_eq!(back.parent_slot, 41);
    // A block shown without transactions and rewards has none of either.
    let bare = block().configure(UiTransactionEncoding::Base64, TransactionDetails::NoDetails, false);
    let back = EncodedConfirmedBlock::from(bare);
    assert_eq!(back.transactions, vec![]);
    assert_eq!(back.rewards, vec![]);
    assert_eq!(back.blockhash, "this");
    assert_eq!(back.block_height, Some(40));
}
