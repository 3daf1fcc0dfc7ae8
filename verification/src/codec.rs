//! Wire codec: turn a client-supplied string into the raw wire bytes and a
//! structural model of the transaction they deserialize into.
//!
//! The decoding itself (base-58, base-64, and the versioned-transaction wire
//! format) is done by outside crates behind trusted wrappers; the size limits,
//! the error taxonomy and everything downstream of the calls are verified.

use vstd::prelude::*;
use base64::Engine;
use bincode::Options;

verus! {

/// Largest wire transaction the protocol accepts, in bytes.
pub const PACKET_DATA_SIZE: usize = 1232;

/// Longest accepted base-58 encoding of a wire transaction, in characters.
pub const MAX_BASE58_LEN: usize = 1683;

/// Longest accepted base-64 encoding of a wire transaction, in characters.
pub const MAX_BASE64_LEN: usize = 1644;

/// One compiled instruction of a transaction: an index into the static
/// account-key table naming the program, the account-index list, and the
/// opaque program input data.
pub struct Instr {
    pub program_id_index: u8,
    pub accounts: Vec<u8>,
    pub data: Vec<u8>,
}

/// What an `Instr` abstracts to.
pub ghost struct InstrView {
    pub program_id_index: u8,
    pub accounts: Seq<u8>,
    pub data: Seq<u8>,
}

impl View for Instr {
    type V = InstrView;

    open spec fn view(&self) -> InstrView {
        InstrView {
            program_id_index: self.program_id_index,
            accounts: self.accounts@,
            data: self.data@,
        }
    }
}

/// The structural parts of a deserialized transaction that admission reads:
/// the signature list, the static account-key table (each key 32 bytes), and
/// the compiled instruction list. Keys resolved through address lookup
/// tables are deliberately not represented; the tip policy ignores them.
pub struct ParsedTransaction {
    pub signatures: Vec<Vec<u8>>,
    pub static_keys: Vec<Vec<u8>>,
    pub instructions: Vec<Instr>,
}

/// What a `ParsedTransaction` abstracts to.
pub ghost struct TxView {
    pub signatures: Seq<Seq<u8>>,
    pub static_keys: Seq<Seq<u8>>,
    pub instructions: Seq<InstrView>,
}

impl View for ParsedTransaction {
    type V = TxView;

    open spec fn view(&self) -> TxView {
        TxView {
            signatures: self.signatures@.map_values(|s: Vec<u8>| s@),
            static_keys: self.static_keys@.map_values(|k: Vec<u8>| k@),
            instructions: self.instructions@.map_values(|i: Instr| i@),
        }
    }
}

/// The bytes that a string denotes under base-58, or `None` where the string
/// is not valid base-58.
pub uninterp spec fn base58_decoding(s: Seq<char>) -> Option<Seq<u8>>;

/// The bytes that a string denotes under standard padded base-64, or `None`
/// where the string is not valid base-64.
pub uninterp spec fn base64_decoding(s: Seq<char>) -> Option<Seq<u8>>;

/// The base-58 rendering of a byte string.
pub uninterp spec fn base58_encoding(b: Seq<u8>) -> Seq<char>;

/// The transaction that a byte string deserializes into under the versioned
/// wire format, or `None` where it does not deserialize exactly (trailing
/// bytes included).
pub uninterp spec fn transaction_parse(b: Seq<u8>) -> Option<TxView>;

/// Relies on `bs58::decode` (builder form, `into_vec`): the result depends on
/// the characters of the input alone.
#[verifier::external_body]
fn decode_base58(s: &str) -> (r: Option<Vec<u8>>)
    ensures
        match r {
            Some(v) => base58_decoding(s@) == Some(v@),
            None => base58_decoding(s@) is None,
        },
{
    bs58::decode(s).into_vec().ok()
}

/// Relies on `base64::engine::general_purpose::STANDARD.decode`: the result
/// depends on the characters of the input alone.
#[verifier::external_body]
fn decode_base64(s: &str) -> (r: Option<Vec<u8>>)
    ensures
        match r {
            Some(v) => base64_decoding(s@) == Some(v@),
            None => base64_decoding(s@) is None,
        },
{
    base64::engine::general_purpose::STANDARD.decode(s).ok()
}

/// Relies on `bs58::encode` (builder form, `into_string`): the result depends
/// on the bytes of the input alone.
#[verifier::external_body]
pub(crate) fn encode_base58(b: &Vec<u8>) -> (r: String)
    ensures
        r@ == base58_encoding(b@),
{
    bs58::encode(b.as_slice()).into_string()
}

/// Relies on `bincode::options` deserialization (fixed-width integers, size
/// limit, trailing bytes rejected) of `solana_sdk`'s `VersionedTransaction`,
/// and on the `signatures`, `static_account_keys` and `instructions`
/// accessors of that crate; the body only copies those fields out.
#[verifier::external_body]
fn deserialize_transaction(bytes: &Vec<u8>) -> (r: Option<ParsedTransaction>)
    ensures
        match r {
            Some(t) => transaction_parse(bytes@) == Some(t@),
            None => transaction_parse(bytes@) is None,
        },
{
    let opts = bincode::options().with_limit(PACKET_DATA_SIZE as u64).with_fixint_encoding();
    let tx: solana_sdk::transaction::VersionedTransaction =
        match opts.deserialize(bytes.as_slice()) {
            Ok(t) => t,
            Err(_) => return None,
        };
    Some(ParsedTransaction {
        signatures: tx.signatures.iter().map(|s| s.as_ref().to_vec()).collect(),
        static_keys: tx.message.static_account_keys().iter().map(|k| k.to_bytes().to_vec()).collect(),
        instructions: tx.message.instructions().iter().map(|i| Instr {
            program_id_index: i.program_id_index,
            accounts: i.accounts.clone(),
            data: i.data.clone(),
        }).collect(),
    })
}

/// The two wire encodings a client may submit in.
#[derive(Clone, Copy, PartialEq, Eq, Structural)]
pub enum BinaryEncoding {
    Base58,
    Base64,
}

/// Why a client string failed to decode.
#[derive(Clone, Copy, PartialEq, Eq, Structural)]
pub enum DecodeError {
    /// The encoded string, or the decoded payload, is over the size limit.
    OversizeInput,
    /// The string is not valid under the requested encoding.
    MalformedEncoding,
    /// The payload does not deserialize exactly into a signed versioned
    /// transaction.
    DeserializationFailed,
}

/// What decoding a client string comes to: the wire bytes and the structural
/// transaction, or the first error in order of checking. A transaction
/// without any signature has no canonical identifier and is refused as
/// malformed.
pub open spec fn decode_spec(text: Seq<char>, enc: BinaryEncoding) -> Result<(Seq<u8>, TxView), DecodeError> {
    let limit = if enc is Base58 { MAX_BASE58_LEN } else { MAX_BASE64_LEN };
    if text.len() > limit {
        Err(DecodeError::OversizeInput)
    } else {
        let decoded = if enc is Base58 { base58_decoding(text) } else { base64_decoding(text) };
        match decoded {
            None => Err(DecodeError::MalformedEncoding),
            Some(wire) => if wire.len() > PACKET_DATA_SIZE {
                Err(DecodeError::OversizeInput)
            } else {
                match transaction_parse(wire) {
                    None => Err(DecodeError::DeserializationFailed),
                    Some(tx) => if tx.signatures.len() == 0 {
                        Err(DecodeError::DeserializationFailed)
                    } else {
                        Ok((wire, tx))
                    },
                }
            },
        }
    }
}

/// Decode a client string under the requested encoding, enforcing the size
/// limits before and after decoding, and deserialize the result.
pub fn decode_transaction(text: &String, enc: BinaryEncoding) -> (r: Result<(Vec<u8>, ParsedTransaction), DecodeError>)
    ensures
        match r {
            Ok((wire, tx)) => decode_spec(text@, enc) == Ok::<(Seq<u8>, TxView), DecodeError>((wire@, tx@)),
            Err(e) => decode_spec(text@, enc) == Err::<(Seq<u8>, TxView), DecodeError>(e),
        },
{
    let limit: usize = match enc {
        BinaryEncoding::Base58 => MAX_BASE58_LEN,
        BinaryEncoding::Base64 => MAX_BASE64_LEN,
    };
    if text.as_str().unicode_len() > limit {
        return Err(DecodeError::OversizeInput);
    }
    let decoded = match enc {
        BinaryEncoding::Base58 => decode_base58(text.as_str()),
        BinaryEncoding::Base64 => decode_base64(text.as_str()),
    };
    let wire = match decoded {
        None => {
            return Err(DecodeError::MalformedEncoding);
        },
        Some(w) => w,
    };
    if wire.len() > PACKET_DATA_SIZE {
        return Err(DecodeError::OversizeInput);
    }
    match deserialize_transaction(&wire) {
        None => Err(DecodeError::DeserializationFailed),
        Some(tx) => if tx.signatures.len() == 0 {
            Err(DecodeError::DeserializationFailed)
        } else {
            Ok((wire, tx))
        },
    }
}

} // verus!
