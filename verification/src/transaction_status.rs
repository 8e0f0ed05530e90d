//! How transactions and their status are shown to clients.

use crate::encoding::{
    base58_bytes, base58_decode, base58_encode, base58_text, base64_bytes, base64_decode,
    base64_encode, base64_text,
};
use crate::pubkey::Pubkey;
use vstd::prelude::*;

verus! {

#[verifier::external_type_specification]
#[verifier::external_body]
pub struct ExJsonValue(serde_json::Value);

pub assume_specification[ <serde_json::Value as Clone>::clone ](
    value: &serde_json::Value,
) -> serde_json::Value
;

/// Types that can be encoded into one of several encoding formats.
pub trait Encodable: Sized {
    type Encoded;

    /// Whether `encoded` is what the value is encoded into under
    /// `encoding`.
    spec fn encodes_to(self, encoding: UiTransactionEncoding, encoded: Self::Encoded) -> bool;

    fn encode(self, encoding: UiTransactionEncoding) -> (encoded: Self::Encoded)
        ensures
            self.encodes_to(encoding, encoded),
    ;
}

/// The formats in which a transaction is shown.
#[derive(Clone, Copy, Debug, Eq, Hash, PartialEq, Structural)]
pub enum UiTransactionEncoding {
    /// Base 58 without a tag, kept for old clients.
    Binary,
    Base64,
    Base58,
    Json,
    JsonParsed,
}

impl UiTransactionEncoding {
    /// The name of the format, in camel case.
    pub open spec fn name(self) -> Seq<char> {
        match self {
            UiTransactionEncoding::Binary => "binary"@,
            UiTransactionEncoding::Base64 => "base64"@,
            UiTransactionEncoding::Base58 => "base58"@,
            UiTransactionEncoding::Json => "json"@,
            UiTransactionEncoding::JsonParsed => "jsonParsed"@,
        }
    }

    /// The name of the format, in camel case.
    pub fn to_string(&self) -> (name: String)
        ensures
            name@ == self.name(),
    {
        match self {
            UiTransactionEncoding::Binary => "binary".to_owned(),
            UiTransactionEncoding::Base64 => "base64".to_owned(),
            UiTransactionEncoding::Base58 => "base58".to_owned(),
            UiTransactionEncoding::Json => "json".to_owned(),
            UiTransactionEncoding::JsonParsed => "jsonParsed".to_owned(),
        }
    }
}

/// How much of the transactions of a block is shown.
#[derive(Debug, Clone, Copy, Eq, Hash, PartialEq, Structural)]
pub enum TransactionDetails {
    /// Every transaction in full.
    Full,
    /// The first signature of every transaction.
    Signatures,
    /// No transactions.
    NoDetails,
}

impl Default for TransactionDetails {
    fn default() -> (details: TransactionDetails)
        ensures
            details == TransactionDetails::Full,
    {
        TransactionDetails::Full
    }
}

/// An instruction as a message holds it: its program and accounts by their
/// positions among the account keys of the message.
#[derive(Clone, Debug, PartialEq, Eq)]
pub struct CompiledInstruction {
    pub program_id_index: u8,
    pub accounts: Vec<u8>,
    pub data: Vec<u8>,
}

/// An instruction with its data as base-58 text.
#[derive(Clone, Debug, PartialEq)]
pub struct UiCompiledInstruction {
    pub program_id_index: u8,
    pub accounts: Vec<u8>,
    pub data: String,
}

/// An instruction with its accounts by key and its data as base-58 text.
#[derive(Clone, Debug, PartialEq)]
pub struct UiPartiallyDecodedInstruction {
    pub program_id: String,
    pub accounts: Vec<String>,
    pub data: String,
}

/// An instruction that a parser understood.
#[derive(Clone, Debug, PartialEq)]
pub struct ParsedInstruction {
    pub program: String,
    pub program_id: String,
    pub parsed: serde_json::Value,
}

/// An instruction as far as it could be parsed.
#[derive(Clone, Debug, PartialEq)]
pub enum UiParsedInstruction {
    Parsed(ParsedInstruction),
    PartiallyDecoded(UiPartiallyDecodedInstruction),
}

/// An instruction as it is shown.
#[derive(Clone, Debug, PartialEq)]
pub enum UiInstruction {
    Compiled(UiCompiledInstruction),
    Parsed(UiParsedInstruction),
}

/// The instructions that one instruction of a transaction invoked.
#[derive(Clone, Debug, PartialEq)]
pub struct InnerInstructions {
    /// The position of the instruction in its transaction.
    pub index: u8,
    pub instructions: Vec<CompiledInstruction>,
}

/// The instructions that one instruction of a transaction invoked, as they
/// are shown.
#[derive(Clone, Debug, PartialEq)]
pub struct UiInnerInstructions {
    /// The position of the instruction in its transaction.
    pub index: u8,
    pub instructions: Vec<UiInstruction>,
}

/// An account of a message as it is shown.
#[derive(Clone, Debug, PartialEq)]
pub struct ParsedAccount {
    pub pubkey: String,
    pub writable: bool,
    pub signer: bool,
}

/// A message with its instructions parsed.
#[derive(Clone, Debug, PartialEq)]
pub struct UiParsedMessage {
    pub account_keys: Vec<ParsedAccount>,
    pub recent_blockhash: String,
    pub instructions: Vec<UiInstruction>,
}

/// The texts of the keys at the positions `accounts[..upto]`.
pub open spec fn account_texts(accounts: Seq<u8>, account_keys: Seq<Pubkey>, upto: int) -> Seq<
    Seq<char>,
> {
    Seq::new(upto as nat, |i: int| base58_text(account_keys[accounts[i] as int].spec_bytes()))
}

/// The texts of `strings`.
pub open spec fn texts(strings: Seq<String>) -> Seq<Seq<char>> {
    Seq::new(strings.len(), |i: int| strings[i]@)
}

impl UiCompiledInstruction {
    /// Whether this shows `instruction`.
    pub open spec fn shows(self, instruction: CompiledInstruction) -> bool {
        &&& self.program_id_index == instruction.program_id_index
        &&& self.accounts@ == instruction.accounts@
        &&& self.data@ == base58_text(instruction.data@)
    }

    /// Shows `instruction` with its data as base-58 text.
    pub fn from(instruction: &CompiledInstruction) -> (shown: UiCompiledInstruction)
        ensures
            shown.shows(*instruction),
    {
        UiCompiledInstruction {
            program_id_index: instruction.program_id_index,
            accounts: copy_bytes(&instruction.accounts),
            data: base58_encode(&instruction.data),
        }
    }
}

fn copy_bytes(bytes: &Vec<u8>) -> (copy: Vec<u8>)
    ensures
        copy@ == bytes@,
{
    let mut copy: Vec<u8> = Vec::with_capacity(bytes.len());
    let mut i: usize = 0;
    while i < bytes.len()
        invariant
            i <= bytes@.len(),
            copy@ == bytes@.take(i as int),
        decreases bytes@.len() - i,
    {
        copy.push(bytes[i]);
        assert(bytes@.take(i + 1) == bytes@.take(i as int).push(bytes@[i as int]));
        i = i + 1;
    }
    assert(bytes@.take(bytes@.len() as int) == bytes@);
    copy
}

impl UiPartiallyDecodedInstruction {
    /// Whether this shows `instruction` of a message with `account_keys`.
    pub open spec fn shows(self, instruction: CompiledInstruction, account_keys: Seq<Pubkey>) -> bool {
        &&& self.program_id@ == base58_text(
            account_keys[instruction.program_id_index as int].spec_bytes(),
        )
        &&& texts(self.accounts@) == account_texts(
            instruction.accounts@,
            account_keys,
            instruction.accounts@.len() as int,
        )
        &&& self.data@ == base58_text(instruction.data@)
    }

    /// Shows `instruction` with its program and accounts by key. Every
    /// position that the instruction names must be one of `account_keys`.
    pub fn from(instruction: &CompiledInstruction, account_keys: &Vec<Pubkey>) -> (shown:
        UiPartiallyDecodedInstruction)
        requires
            instruction.program_id_index < account_keys@.len(),
            forall|i: int|
                0 <= i < instruction.accounts@.len() ==> instruction.accounts@[i] < account_keys@.len(),
        ensures
            shown.shows(*instruction, account_keys@),
    {
        let mut accounts: Vec<String> = Vec::with_capacity(instruction.accounts.len());
        let mut i: usize = 0;
        while i < instruction.accounts.len()
            invariant
                i <= instruction.accounts@.len(),
                forall|j: int|
                    0 <= j < instruction.accounts@.len() ==> instruction.accounts@[j]
                        < account_keys@.len(),
                accounts@.len() == i,
                texts(accounts@) == account_texts(instruction.accounts@, account_keys@, i as int),
            decreases instruction.accounts@.len() - i,
        {
            let position: usize = instruction.accounts[i] as usize;
            let ghost before = accounts@;
            accounts.push(account_keys[position].to_string());
            assert(texts(accounts@) == account_texts(
                instruction.accounts@,
                account_keys@,
                i + 1,
            )) by {
                assert forall|j: int| 0 <= j < i + 1 implies texts(accounts@)[j] == account_texts(
                    instruction.accounts@,
                    account_keys@,
                    i + 1,
                )[j] by {
                    if j < i {
                        assert(accounts@[j] == before[j]);
                        assert(texts(before)[j] == account_texts(
                            instruction.accounts@,
                            account_keys@,
                            i as int,
                        )[j]);
                    }
                }
            }
            i = i + 1;
        }
        UiPartiallyDecodedInstruction {
            program_id: account_keys[instruction.program_id_index as usize].to_string(),
            accounts,
            data: base58_encode(&instruction.data),
        }
    }
}

impl UiInstruction {
    /// Shows `instruction` as parsed: as `parsed` where a parser understood
    /// it, else with its program and accounts by key. Every position that
    /// the instruction names must be one of `account_keys`.
    pub fn parse(
        instruction: &CompiledInstruction,
        account_keys: &Vec<Pubkey>,
        parsed: Option<ParsedInstruction>,
    ) -> (shown: UiInstruction)
        requires
            instruction.program_id_index < account_keys@.len(),
            forall|i: int|
                0 <= i < instruction.accounts@.len() ==> instruction.accounts@[i] < account_keys@.len(),
        ensures
            match parsed {
                Some(parsed) => shown == UiInstruction::Parsed(UiParsedInstruction::Parsed(parsed)),
                None => shown matches UiInstruction::Parsed(
                    UiParsedInstruction::PartiallyDecoded(partly),
                ) && partly.shows(*instruction, account_keys@),
            },
    {
        match parsed {
            Some(parsed) => UiInstruction::Parsed(UiParsedInstruction::Parsed(parsed)),
            None => UiInstruction::Parsed(
                UiParsedInstruction::PartiallyDecoded(
                    UiPartiallyDecodedInstruction::from(instruction, account_keys),
                ),
            ),
        }
    }
}

/// Whether every position that `instruction` names is one of `count` keys.
pub open spec fn names_known_accounts(instruction: CompiledInstruction, count: nat) -> bool {
    &&& instruction.program_id_index < count
    &&& forall|i: int|
        0 <= i < instruction.accounts@.len() ==> instruction.accounts@[i] < count
}

impl UiInnerInstructions {
    /// Whether this shows `inner` of a message with `account_keys`, each
    /// instruction as `parsed` has it where a parser understood it, and
    /// with its program and accounts by key where none did.
    pub open spec fn shows_parsed(
        self,
        inner: InnerInstructions,
        account_keys: Seq<Pubkey>,
        parsed: Seq<Option<ParsedInstruction>>,
    ) -> bool {
        &&& self.index == inner.index
        &&& self.instructions@.len() == inner.instructions@.len()
        &&& forall|i: int|
            0 <= i < inner.instructions@.len() ==> match parsed[i] {
                Some(understood) => (#[trigger] self.instructions@[i]) == UiInstruction::Parsed(
                    UiParsedInstruction::Parsed(understood),
                ),
                None => (self.instructions@[i] matches UiInstruction::Parsed(
                    UiParsedInstruction::PartiallyDecoded(partly),
                ) && partly.shows(inner.instructions@[i], account_keys)),
            }
    }

    /// Shows `inner_instructions` as parsed: `parsed` holds for each
    /// instruction what a parser made of it, if it made anything. Every
    /// position that an instruction names must be one of `account_keys`.
    pub fn parse(
        inner_instructions: InnerInstructions,
        account_keys: &Vec<Pubkey>,
        parsed: Vec<Option<ParsedInstruction>>,
    ) -> (shown: UiInnerInstructions)
        requires
            parsed@.len() == inner_instructions.instructions@.len(),
            forall|i: int|
                0 <= i < inner_instructions.instructions@.len() ==> names_known_accounts(
                    #[trigger] inner_instructions.instructions@[i],
                    account_keys@.len(),
                ),
        ensures
            shown.shows_parsed(inner_instructions, account_keys@, parsed@),
    {
        let len: usize = inner_instructions.instructions.len();
        let mut instructions: Vec<UiInstruction> = Vec::with_capacity(len);
        let ghost all = parsed@;
        for understood in each: parsed
            invariant
                len == inner_instructions.instructions@.len(),
                all.len() == len,
                each.seq() == all,
                instructions@.len() == each.index(),
                forall|j: int|
                    0 <= j < len ==> names_known_accounts(
                        #[trigger] inner_instructions.instructions@[j],
                        account_keys@.len(),
                    ),
                forall|j: int|
                    0 <= j < each.index() ==> match all[j] {
                        Some(understood) => (#[trigger] instructions@[j]) == UiInstruction::Parsed(
                            UiParsedInstruction::Parsed(understood),
                        ),
                        None => (instructions@[j] matches UiInstruction::Parsed(
                            UiParsedInstruction::PartiallyDecoded(partly),
                        ) && partly.shows(inner_instructions.instructions@[j], account_keys@)),
                    },
        {
            let i: usize = instructions.len();
            assert(names_known_accounts(
                inner_instructions.instructions@[i as int],
                account_keys@.len(),
            ));
            instructions.push(
                UiInstruction::parse(&inner_instructions.instructions[i], account_keys, understood),
            );
        }
        UiInnerInstructions { index: inner_instructions.index, instructions }
    }

    /// Whether this shows `inner` with every instruction compiled.
    pub open spec fn shows(self, inner: InnerInstructions) -> bool {
        &&& self.index == inner.index
        &&& self.instructions@.len() == inner.instructions@.len()
        &&& forall|i: int|
            0 <= i < inner.instructions@.len() ==> ((#[trigger] self.instructions@[i]) matches UiInstruction::Compiled(
                shown,
            ) && shown.shows(inner.instructions@[i]))
    }

    /// Shows `inner_instructions` with the data of every instruction as
    /// base-58 text.
    pub fn from(inner_instructions: InnerInstructions) -> (shown: UiInnerInstructions)
        ensures
            shown.shows(inner_instructions),
    {
        let mut instructions: Vec<UiInstruction> = Vec::with_capacity(
            inner_instructions.instructions.len(),
        );
        let mut i: usize = 0;
        while i < inner_instructions.instructions.len()
            invariant
                i <= inner_instructions.instructions@.len(),
                instructions@.len() == i,
                forall|j: int|
                    0 <= j < i ==> ((#[trigger] instructions@[j]) matches UiInstruction::Compiled(shown)
                        && shown.shows(inner_instructions.instructions@[j])),
            decreases inner_instructions.instructions@.len() - i,
        {
            instructions.push(
                UiInstruction::Compiled(
                    UiCompiledInstruction::from(&inner_instructions.instructions[i]),
                ),
            );
            i = i + 1;
        }
        UiInnerInstructions { index: inner_instructions.index, instructions }
    }
}

/// How far the cluster has confirmed a transaction.
#[derive(Clone, Copy, Debug, PartialEq, Eq, Structural)]
pub enum TransactionConfirmationStatus {
    Processed,
    Confirmed,
    Finalized,
}

/// How far a client wants a transaction confirmed. The later names are old
/// names of the first three.
#[derive(Clone, Copy, Debug, PartialEq, Eq, Structural)]
pub enum CommitmentLevel {
    Processed,
    Confirmed,
    Finalized,
    Max,
    Recent,
    Root,
    Single,
    SingleGossip,
}

/// The commitment that a client asks for.
#[derive(Clone, Copy, Debug, PartialEq, Eq, Structural)]
pub struct CommitmentConfig {
    pub commitment: CommitmentLevel,
}

impl CommitmentConfig {
    /// Whether the commitment is that of a finalized block, under any of
    /// its names.
    pub open spec fn spec_is_finalized(self) -> bool {
        self.commitment == CommitmentLevel::Finalized || self.commitment == CommitmentLevel::Max
            || self.commitment == CommitmentLevel::Root
    }

    /// Whether the commitment is that of a confirmed block, under any of
    /// its names.
    pub open spec fn spec_is_confirmed(self) -> bool {
        self.commitment == CommitmentLevel::Confirmed || self.commitment
            == CommitmentLevel::SingleGossip || self.commitment == CommitmentLevel::Single
    }

    pub fn finalized() -> (config: CommitmentConfig)
        ensures
            config.commitment == CommitmentLevel::Finalized,
    {
        CommitmentConfig { commitment: CommitmentLevel::Finalized }
    }

    pub fn confirmed() -> (config: CommitmentConfig)
        ensures
            config.commitment == CommitmentLevel::Confirmed,
    {
        CommitmentConfig { commitment: CommitmentLevel::Confirmed }
    }

    pub fn processed() -> (config: CommitmentConfig)
        ensures
            config.commitment == CommitmentLevel::Processed,
    {
        CommitmentConfig { commitment: CommitmentLevel::Processed }
    }

    pub fn is_finalized(&self) -> (r: bool)
        ensures
            r == self.spec_is_finalized(),
    {
        match self.commitment {
            CommitmentLevel::Finalized | CommitmentLevel::Max | CommitmentLevel::Root => true,
            _ => false,
        }
    }

    pub fn is_confirmed(&self) -> (r: bool)
        ensures
            r == self.spec_is_confirmed(),
    {
        match self.commitment {
            CommitmentLevel::Confirmed | CommitmentLevel::SingleGossip | CommitmentLevel::Single => true,
            _ => false,
        }
    }
}

/// What a node reports of a transaction, as far as the commitment of the
/// transaction goes.
#[derive(Clone, Copy, Debug, PartialEq, Eq, Structural)]
pub struct TransactionStatus {
    pub slot: u64,
    /// The number of blocks that confirm the transaction; `None` once its
    /// block is rooted.
    pub confirmations: Option<usize>,
    /// How far the cluster has confirmed it; `None` from older nodes.
    pub confirmation_status: Option<TransactionConfirmationStatus>,
}

impl TransactionStatus {
    /// Whether the status meets `commitment_config`. A finalized
    /// commitment asks for a rooted block. A confirmed one asks for a
    /// status beyond processed or, where an older node reports none, for a
    /// rooted block or more than one confirmation. Any status meets a
    /// processed commitment.
    pub open spec fn spec_satisfies_commitment(self, commitment_config: CommitmentConfig) -> bool {
        if commitment_config.spec_is_finalized() {
            self.confirmations.is_none()
        } else if commitment_config.spec_is_confirmed() {
            match self.confirmation_status {
                Some(status) => status != TransactionConfirmationStatus::Processed,
                None => match self.confirmations {
                    Some(confirmations) => confirmations > 1,
                    None => true,
                },
            }
        } else {
            true
        }
    }

    /// How far the transaction is confirmed: as reported or, where an
    /// older node reports nothing, finalized if its block is rooted,
    /// confirmed with at least one confirmation, else processed.
    pub open spec fn spec_confirmation_status(self) -> TransactionConfirmationStatus {
        match self.confirmation_status {
            Some(status) => status,
            None => match self.confirmations {
                None => TransactionConfirmationStatus::Finalized,
                Some(confirmations) => if confirmations > 0 {
                    TransactionConfirmationStatus::Confirmed
                } else {
                    TransactionConfirmationStatus::Processed
                },
            },
        }
    }

    /// Whether the status meets `commitment_config`.
    pub fn satisfies_commitment(&self, commitment_config: CommitmentConfig) -> (met: bool)
        ensures
            met == self.spec_satisfies_commitment(commitment_config),
    {
        if commitment_config.is_finalized() {
            self.confirmations.is_none()
        } else if commitment_config.is_confirmed() {
            if let Some(status) = self.confirmation_status {
                status != TransactionConfirmationStatus::Processed
            } else {
                match self.confirmations {
                    Some(confirmations) => confirmations > 1,
                    None => true,
                }
            }
        } else {
            true
        }
    }

    /// How far the transaction is confirmed.
    pub fn confirmation_status(&self) -> (status: TransactionConfirmationStatus)
        ensures
            status == self.spec_confirmation_status(),
    {
        match self.confirmation_status {
            Some(status) => status,
            None => {
                match self.confirmations {
                    None => TransactionConfirmationStatus::Finalized,
                    Some(confirmations) => {
                        if confirmations > 0 {
                            TransactionConfirmationStatus::Confirmed
                        } else {
                            TransactionConfirmationStatus::Processed
                        }
                    },
                }
            },
        }
    }
}

/// The header of a message: how many of its accounts sign, and how many of
/// the signing and of the other accounts are read only.
#[derive(Clone, Copy, Debug, PartialEq, Eq, Structural)]
pub struct MessageHeader {
    pub num_required_signatures: u8,
    pub num_readonly_signed_accounts: u8,
    pub num_readonly_unsigned_accounts: u8,
}

/// A message: the accounts that a transaction touches and the
/// instructions that it runs. The blockhash is 32 bytes, held as a key is.
pub struct Message {
    pub header: MessageHeader,
    pub account_keys: Vec<Pubkey>,
    pub recent_blockhash: Pubkey,
    pub instructions: Vec<CompiledInstruction>,
}

/// A message in raw form, as it is shown.
#[derive(Clone, Debug, PartialEq)]
pub struct UiRawMessage {
    pub header: MessageHeader,
    pub account_keys: Vec<String>,
    pub recent_blockhash: String,
    pub instructions: Vec<UiCompiledInstruction>,
}

impl UiRawMessage {
    /// Whether this shows `message`: keys and blockhash as base-58 text,
    /// and every instruction with its data as base-58 text.
    pub open spec fn shows(self, message: Message) -> bool {
        &&& self.header == message.header
        &&& texts(self.account_keys@) == Seq::new(
            message.account_keys@.len(),
            |i: int| base58_text(message.account_keys@[i].spec_bytes()),
        )
        &&& self.recent_blockhash@ == base58_text(message.recent_blockhash.spec_bytes())
        &&& self.instructions@.len() == message.instructions@.len()
        &&& forall|i: int|
            0 <= i < message.instructions@.len() ==> (#[trigger] self.instructions@[i]).shows(
                message.instructions@[i],
            )
    }

    /// Shows `message` in raw form.
    pub fn from(message: &Message) -> (shown: UiRawMessage)
        ensures
            shown.shows(*message),
    {
        let mut account_keys: Vec<String> = Vec::with_capacity(message.account_keys.len());
        let mut i: usize = 0;
        while i < message.account_keys.len()
            invariant
                i <= message.account_keys@.len(),
                account_keys@.len() == i,
                forall|j: int|
                    0 <= j < i ==> (#[trigger] account_keys@[j])@ == base58_text(
                        message.account_keys@[j].spec_bytes(),
                    ),
            decreases message.account_keys@.len() - i,
        {
            account_keys.push(message.account_keys[i].to_string());
            i = i + 1;
        }
        let mut instructions: Vec<UiCompiledInstruction> = Vec::with_capacity(
            message.instructions.len(),
        );
        let mut k: usize = 0;
        while k < message.instructions.len()
            invariant
                k <= message.instructions@.len(),
                instructions@.len() == k,
                forall|j: int|
                    0 <= j < k ==> (#[trigger] instructions@[j]).shows(message.instructions@[j]),
            decreases message.instructions@.len() - k,
        {
            instructions.push(UiCompiledInstruction::from(&message.instructions[k]));
            k = k + 1;
        }
        let shown = UiRawMessage {
            header: message.header,
            account_keys,
            recent_blockhash: message.recent_blockhash.to_string(),
            instructions,
        };
        assert(texts(shown.account_keys@) =~= Seq::new(
            message.account_keys@.len(),
            |i: int| base58_text(message.account_keys@[i].spec_bytes()),
        ));
        shown
    }
}

/// A message as it is shown.
#[derive(Clone, Debug, PartialEq)]
pub enum UiMessage {
    Parsed(UiParsedMessage),
    Raw(UiRawMessage),
}

/// A transaction as it is shown.
#[derive(Clone, Debug, PartialEq)]
pub struct UiTransaction {
    pub signatures: Vec<String>,
    pub message: UiMessage,
}

/// A transaction in one of the encodings.
#[derive(Clone, Debug, PartialEq)]
pub enum EncodedTransaction {
    /// Base 58 without a tag, kept for old clients.
    LegacyBinary(String),
    Binary(String, UiTransactionEncoding),
    Json(UiTransaction),
}

impl EncodedTransaction {
    /// The serialized transaction that this encodes, where it is a binary
    /// encoding whose text stands for bytes.
    pub open spec fn spec_decode(self) -> Option<Seq<u8>> {
        match self {
            EncodedTransaction::Json(_) => None,
            EncodedTransaction::LegacyBinary(blob) => base58_bytes(blob@),
            EncodedTransaction::Binary(blob, encoding) => match encoding {
                UiTransactionEncoding::Base58 => base58_bytes(blob@),
                UiTransactionEncoding::Base64 => base64_bytes(blob@),
                _ => None,
            },
        }
    }

    /// Whether this is the encoding of the serialized transaction `bytes`
    /// in the binary format `encoding`.
    pub open spec fn encodes(self, bytes: Seq<u8>, encoding: UiTransactionEncoding) -> bool {
        match encoding {
            UiTransactionEncoding::Binary => self matches EncodedTransaction::LegacyBinary(blob)
                && blob@ == base58_text(bytes),
            UiTransactionEncoding::Base58 => self matches EncodedTransaction::Binary(blob, tag)
                && blob@ == base58_text(bytes) && tag == encoding,
            UiTransactionEncoding::Base64 => self matches EncodedTransaction::Binary(blob, tag)
                && blob@ == base64_text(bytes) && tag == encoding,
            _ => false,
        }
    }

    /// Encodes a serialized transaction in a binary format. Returns `None`
    /// exactly for the two JSON formats, which are no encodings of bytes.
    pub fn encode_binary(serialized: &Vec<u8>, encoding: UiTransactionEncoding) -> (encoded: Option<
        EncodedTransaction,
    >)
        ensures
            encoded.is_none() <==> (encoding == UiTransactionEncoding::Json || encoding
                == UiTransactionEncoding::JsonParsed),
            encoded matches Some(transaction) ==> transaction.encodes(serialized@, encoding),
    {
        match encoding {
            UiTransactionEncoding::Binary => Some(
                EncodedTransaction::LegacyBinary(base58_encode(serialized)),
            ),
            UiTransactionEncoding::Base58 => Some(
                EncodedTransaction::Binary(base58_encode(serialized), encoding),
            ),
            UiTransactionEncoding::Base64 => Some(
                EncodedTransaction::Binary(base64_encode(serialized), encoding),
            ),
            UiTransactionEncoding::Json | UiTransactionEncoding::JsonParsed => None,
        }
    }

    /// The serialized transaction that this encodes: the bytes for which
    /// the text of a binary encoding stands. Returns `None` for a JSON
    /// encoding, for a text that stands for no bytes, and for a tag that
    /// names no binary format.
    pub fn decode(&self) -> (bytes: Option<Vec<u8>>)
        ensures
            match bytes {
                Some(bytes) => self.spec_decode() == Some(bytes@),
                None => self.spec_decode().is_none(),
            },
    {
        match self {
            EncodedTransaction::Json(_) => None,
            EncodedTransaction::LegacyBinary(blob) => match base58_decode(blob) {
                Ok(bytes) => Some(bytes),
                Err(_) => None,
            },
            EncodedTransaction::Binary(blob, encoding) => match encoding {
                UiTransactionEncoding::Base58 => match base58_decode(blob) {
                    Ok(bytes) => Some(bytes),
                    Err(_) => None,
                },
                UiTransactionEncoding::Base64 => match base64_decode(blob) {
                    Ok(bytes) => Some(bytes),
                    Err(_) => None,
                },
                UiTransactionEncoding::Binary
                | UiTransactionEncoding::Json
                | UiTransactionEncoding::JsonParsed => None,
            },
        }
    }
}


/// What a reward was paid for.
#[derive(Clone, Copy, Debug, PartialEq, Eq, Structural)]
pub enum RewardType {
    Fee,
    Rent,
    Staking,
    Voting,
}

/// A reward that a block paid to an account.
#[derive(Clone, Debug, PartialEq)]
pub struct Reward {
    pub pubkey: String,
    pub lamports: i64,
    /// The balance of the account after the reward.
    pub post_balance: u64,
    pub reward_type: Option<RewardType>,
    /// The commission of the vote account at the time, for rewards of
    /// voting and staking.
    pub commission: Option<u8>,
}

/// A transaction of a block: its signatures, and the transaction with the
/// status of its execution as the validator holds them.
pub struct TransactionWithStatusMeta<T> {
    pub signatures: Vec<Vec<u8>>,
    pub transaction: T,
}

impl<T: Encodable> Encodable for TransactionWithStatusMeta<T> {
    type Encoded = T::Encoded;

    open spec fn encodes_to(self, encoding: UiTransactionEncoding, encoded: T::Encoded) -> bool {
        self.transaction.encodes_to(encoding, encoded)
    }

    fn encode(self, encoding: UiTransactionEncoding) -> (encoded: T::Encoded) {
        self.transaction.encode(encoding)
    }
}

/// A transaction in its wire form.
pub struct SerializedTransaction {
    pub serialized: Vec<u8>,
}

impl Encodable for SerializedTransaction {
    type Encoded = Option<EncodedTransaction>;

    /// The wire form is encoded as base-58 or base-64 text under the binary
    /// formats; under the two JSON formats, which are no encodings of
    /// bytes, there is nothing.
    open spec fn encodes_to(self, encoding: UiTransactionEncoding, encoded: Option<
        EncodedTransaction,
    >) -> bool {
        match encoded {
            Some(transaction) => transaction.encodes(self.serialized@, encoding),
            None => encoding == UiTransactionEncoding::Json || encoding
                == UiTransactionEncoding::JsonParsed,
        }
    }

    fn encode(self, encoding: UiTransactionEncoding) -> (encoded: Option<EncodedTransaction>) {
        EncodedTransaction::encode_binary(&self.serialized, encoding)
    }
}

/// A block that the cluster has confirmed.
pub struct ConfirmedBlock<T> {
    pub previous_blockhash: String,
    pub blockhash: String,
    pub parent_slot: u64,
    pub transactions: Vec<TransactionWithStatusMeta<T>>,
    pub rewards: Vec<Reward>,
    pub block_time: Option<i64>,
    pub block_height: Option<u64>,
}

/// A confirmed block with its transactions encoded.
pub struct EncodedConfirmedBlock<E> {
    pub previous_blockhash: String,
    pub blockhash: String,
    pub parent_slot: u64,
    pub transactions: Vec<E>,
    pub rewards: Vec<Reward>,
    pub block_time: Option<i64>,
    pub block_height: Option<u64>,
}

/// A confirmed block as a client asked to be shown it: with its
/// transactions, with their first signatures only, or with neither; with
/// or without its rewards.
pub struct UiConfirmedBlock<E> {
    pub previous_blockhash: String,
    pub blockhash: String,
    pub parent_slot: u64,
    pub transactions: Option<Vec<E>>,
    pub signatures: Option<Vec<String>>,
    pub rewards: Option<Vec<Reward>>,
    pub block_time: Option<i64>,
    pub block_height: Option<u64>,
}

/// Whether `encoded` holds, in order, what each of `transactions` is
/// encoded into under `encoding`.
pub open spec fn all_encode_to<T: Encodable>(
    transactions: Seq<TransactionWithStatusMeta<T>>,
    encoding: UiTransactionEncoding,
    encoded: Seq<T::Encoded>,
) -> bool {
    &&& encoded.len() == transactions.len()
    &&& forall|i: int|
        0 <= i < transactions.len() ==> (#[trigger] transactions[i]).encodes_to(
            encoding,
            encoded[i],
        )
}

/// Whether `signatures` holds, in order, the first signature of each of
/// `transactions` as base-58 text.
pub open spec fn first_signatures<T>(
    transactions: Seq<TransactionWithStatusMeta<T>>,
    signatures: Seq<String>,
) -> bool {
    &&& signatures.len() == transactions.len()
    &&& forall|i: int|
        0 <= i < transactions.len() ==> (#[trigger] signatures[i])@ == base58_text(
            transactions[i].signatures@[0]@,
        )
}

/// Encodes every transaction, in order.
fn encode_all<T: Encodable>(
    transactions: Vec<TransactionWithStatusMeta<T>>,
    encoding: UiTransactionEncoding,
) -> (encoded: Vec<T::Encoded>)
    ensures
        all_encode_to(transactions@, encoding, encoded@),
{
    let ghost all = transactions@;
    let mut encoded: Vec<T::Encoded> = Vec::with_capacity(transactions.len());
    for transaction in each: transactions
        invariant
            each.seq() == all,
            encoded@.len() == each.index(),
            forall|i: int|
                0 <= i < each.index() ==> (#[trigger] all[i]).encodes_to(encoding, encoded@[i]),
    {
        encoded.push(transaction.encode(encoding));
    }
    encoded
}

impl<T: Encodable> Encodable for ConfirmedBlock<T> {
    type Encoded = EncodedConfirmedBlock<T::Encoded>;

    open spec fn encodes_to(
        self,
        encoding: UiTransactionEncoding,
        encoded: EncodedConfirmedBlock<T::Encoded>,
    ) -> bool {
        &&& encoded.previous_blockhash == self.previous_blockhash
        &&& encoded.blockhash == self.blockhash
        &&& encoded.parent_slot == self.parent_slot
        &&& all_encode_to(self.transactions@, encoding, encoded.transactions@)
        &&& encoded.rewards == self.rewards
        &&& encoded.block_time == self.block_time
        &&& encoded.block_height == self.block_height
    }

    fn encode(self, encoding: UiTransactionEncoding) -> (encoded: EncodedConfirmedBlock<
        T::Encoded,
    >) {
        EncodedConfirmedBlock {
            previous_blockhash: self.previous_blockhash,
            blockhash: self.blockhash,
            parent_slot: self.parent_slot,
            transactions: encode_all(self.transactions, encoding),
            rewards: self.rewards,
            block_time: self.block_time,
            block_height: self.block_height,
        }
    }
}

impl<T: Encodable> ConfirmedBlock<T> {
    /// Shows the block as a client asked for it.
    ///
    /// With full details the transactions are encoded; with signatures
    /// only, the first signature of each is given as base-58 text; else
    /// neither is given. The rewards are given if they are asked for. What
    /// else the block holds is handed on. Where signatures are asked for,
    /// every transaction must have one.
    pub fn configure(
        self,
        encoding: UiTransactionEncoding,
        transaction_details: TransactionDetails,
        show_rewards: bool,
    ) -> (shown: UiConfirmedBlock<T::Encoded>)
        requires
            transaction_details == TransactionDetails::Signatures ==> forall|i: int|
                0 <= i < self.transactions@.len() ==> (#[trigger] self.transactions@[i]).signatures@.len()
                    > 0,
        ensures
            shown.previous_blockhash == self.previous_blockhash,
            shown.blockhash == self.blockhash,
            shown.parent_slot == self.parent_slot,
            shown.block_time == self.block_time,
            shown.block_height == self.block_height,
            match shown.transactions {
                Some(encoded) => transaction_details == TransactionDetails::Full && all_encode_to(
                    self.transactions@,
                    encoding,
                    encoded@,
                ),
                None => transaction_details != TransactionDetails::Full,
            },
            match shown.signatures {
                Some(signatures) => transaction_details == TransactionDetails::Signatures
                    && first_signatures(self.transactions@, signatures@),
                None => transaction_details != TransactionDetails::Signatures,
            },
            shown.rewards == if show_rewards {
                Some(self.rewards)
            } else {
                None
            },
    {
        let (transactions, signatures) = match transaction_details {
            TransactionDetails::Full => (Some(encode_all(self.transactions, encoding)), None),
            TransactionDetails::Signatures => {
                let mut signatures: Vec<String> = Vec::with_capacity(self.transactions.len());
                let mut i: usize = 0;
                while i < self.transactions.len()
                    invariant
                        i <= self.transactions@.len(),
                        signatures@.len() == i,
                        forall|k: int|
                            0 <= k < self.transactions@.len() ==> (
                            #[trigger] self.transactions@[k]).signatures@.len() > 0,
                        forall|k: int|
                            0 <= k < i ==> (#[trigger] signatures@[k])@ == base58_text(
                                self.transactions@[k].signatures@[0]@,
                            ),
                    decreases self.transactions@.len() - i,
                {
                    assert(self.transactions@[i as int].signatures@.len() > 0);
                    signatures.push(base58_encode(&self.transactions[i].signatures[0]));
                    i = i + 1;
                }
                (None, Some(signatures))
            },
            TransactionDetails::NoDetails => (None, None),
        };
        UiConfirmedBlock {
            previous_blockhash: self.previous_blockhash,
            blockhash: self.blockhash,
            parent_slot: self.parent_slot,
            transactions,
            signatures,
            rewards: if show_rewards {
                Some(self.rewards)
            } else {
                None
            },
            block_time: self.block_time,
            block_height: self.block_height,
        }
    }
}

impl<E> EncodedConfirmedBlock<E> {
    /// The block that was shown, with no transactions and no rewards where
    /// it was shown without them.
    pub fn from(block: UiConfirmedBlock<E>) -> (encoded: EncodedConfirmedBlock<E>)
        ensures
            encoded.previous_blockhash == block.previous_blockhash,
            encoded.blockhash == block.blockhash,
            encoded.parent_slot == block.parent_slot,
            encoded.transactions@ == match block.transactions {
                Some(transactions) => transactions@,
                None => Seq::empty(),
            },
            encoded.rewards@ == match block.rewards {
                Some(rewards) => rewards@,
                None => Seq::empty(),
            },
            encoded.block_time == block.block_time,
            encoded.block_height == block.block_height,
    {
        EncodedConfirmedBlock {
            previous_blockhash: block.previous_blockhash,
            blockhash: block.blockhash,
            parent_slot: block.parent_slot,
            transactions: match block.transactions {
                Some(transactions) => transactions,
                None => Vec::new(),
            },
            rewards: match block.rewards {
                Some(rewards) => rewards,
                None => Vec::new(),
            },
            block_time: block.block_time,
            block_height: block.block_height,
        }
    }
}

impl<E> UiConfirmedBlock<E> {
    /// The encoded block as it is shown: with its transactions and its
    /// rewards, and without signatures.
    pub fn from(block: EncodedConfirmedBlock<E>) -> (shown: UiConfirmedBlock<E>)
        ensures
            shown.previous_blockhash == block.previous_blockhash,
            shown.blockhash == block.blockhash,
            shown.parent_slot == block.parent_slot,
            shown.transactions == Some(block.transactions),
            shown.signatures.is_none(),
            shown.rewards == Some(block.rewards),
            shown.block_time == block.block_time,
            shown.block_height == block.block_height,
    {
        UiConfirmedBlock {
            previous_blockhash: block.previous_blockhash,
            blockhash: block.blockhash,
            parent_slot: block.parent_slot,
            transactions: Some(block.transactions),
            signatures: None,
            rewards: Some(block.rewards),
            block_time: block.block_time,
            block_height: block.block_height,
        }
    }
}

} // verus!
