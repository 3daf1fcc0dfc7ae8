use base64::Engine;
use iris_gateway::codec::{ParsedTransaction, PACKET_DATA_SIZE};
use iris_gateway::retry::TickOutcome;
use iris_gateway::server::{
    health, invalid_request, AdmissionError, ChainStateClient, Encoding, IrisRpcServerImpl,
    SendTransactionClient, SendTransactionConfig, VersionResponse, DEFAULT_MINIMUM_TIP,
    INVALID_PARAMS_CODE, MAX_BATCH_SIZE,
};
use iris_gateway::store::TransactionStore;
use solana_sdk::message::{Message, VersionedMessage};
use solana_sdk::pubkey::Pubkey;
use solana_sdk::signature::Signature;
use solana_sdk::transaction::VersionedTransaction;

struct RecordingSender {
    sent: Vec<Vec<u8>>,
    batches: Vec<Vec<Vec<u8>>>,
}

impl SendTransactionClient for RecordingSender {
    fn send_transaction(&mut self, wire_transaction: Vec<u8>) {
        self.sent.push(wire_transaction);
    }

    fn send_transaction_batch(&mut self, wire_transactions: Vec<Vec<u8>>) {
        self.batches.push(wire_transactions);
    }
}

struct FakeOracle {
    slot: u64,
    confirm: Option<u64>,
}

impl ChainStateClient for FakeOracle {
    fn get_slot(&mut self) -> u64 {
        self.slot
    }

    fn confirm_signature_status(&mut self, _signature: &String) -> Option<u64> {
        self.confirm
    }
}

fn gateway(
    tip: Option<Pubkey>,
    minimum_tip: Option<u64>,
    max_retries: u32,
) -> IrisRpcServerImpl<RecordingSender, FakeOracle> {
    IrisRpcServerImpl::new(
        RecordingSender { sent: Vec::new(), batches: Vec::new() },
        TransactionStore::new(),
        FakeOracle { slot: 100, confirm: None },
        2000,
        max_retries,
        VersionResponse { version: "1.2".to_string() },
        tip.map(|p| p.to_bytes().to_vec()),
        minimum_tip,
    )
}

fn config() -> SendTransactionConfig {
    SendTransactionConfig { skip_preflight: true, encoding: None, max_retries: None }
}

/// A transfer transaction from a fresh payer, with a fabricated signature,
/// returned as (base-58 text, wire bytes, base-58 signature string).
fn transfer_tx(to: Pubkey, lamports: u64, sig_byte: u8) -> (String, Vec<u8>, String) {
    let from = Pubkey::new_unique();
    let ix = solana_system_interface::instruction::transfer(&from, &to, lamports);
    let msg = Message::new(&[ix], Some(&from));
    let tx = VersionedTransaction {
        signatures: vec![Signature::from([sig_byte; 64])],
        message: VersionedMessage::Legacy(msg),
    };
    let bytes = bincode::serialize(&tx).unwrap();
    let text = bs58::encode(&bytes).into_string();
    let sig = bs58::encode(&[sig_byte; 64]).into_string();
    (text, bytes, sig)
}

#[test]
fn happy_path_admits_stores_and_sends() {
    let tip = Pubkey::new_unique();
    let mut gw = gateway(Some(tip), Some(1000), 3);
    let (text, bytes, sig) = transfer_tx(tip, 2000, 7);
    let r = gw.send_transaction(text, config(), 1000);
    assert_eq!(r, Ok(sig.clone()));
    assert!(gw.store.has_signature(&sig));
    assert_eq!(gw.store.len(), 1);
    assert_eq!(gw.txn_sender.sent.len(), 1);
    assert_eq!(gw.txn_sender.sent[0], bytes);
}

#[test]
fn happy_path_first_tick_resends_and_decrements() {
    let tip = Pubkey::new_unique();
    let mut gw = gateway(Some(tip), Some(1000), 3);
    let (text, bytes, sig) = transfer_tx(tip, 2000, 8);
    gw.send_transaction(text, config(), 1000).unwrap();
    let out: TickOutcome = gw.retry_transactions_tick(3000);
    assert_eq!(out.landed, 0);
    assert!(out.removed.is_empty());
    assert_eq!(out.resent, vec![bytes.clone()]);
    assert_eq!(gw.txn_sender.batches, vec![vec![bytes]]);
    assert!(gw.store.has_signature(&sig));
    assert_eq!(gw.store.data_at(0).retry_count, 2);
}

#[test]
fn duplicate_submission_is_rejected() {
    let tip = Pubkey::new_unique();
    let mut gw = gateway(Some(tip), Some(1000), 3);
    let (text, _, _) = transfer_tx(tip, 2000, 9);
    gw.send_transaction(text.clone(), config(), 1000).unwrap();
    let second = gw.send_transaction(text, config(), 1100);
    assert_eq!(second, Err(AdmissionError::Duplicate));
    assert_eq!(gw.store.len(), 1);
    assert_eq!(
        invalid_request(&AdmissionError::Duplicate.reason()).message,
        "Invalid Request: duplicate transaction"
    );
}

#[test]
fn insufficient_tip_is_rejected_and_store_unchanged() {
    let tip = Pubkey::new_unique();
    let mut gw = gateway(Some(tip), Some(1000), 3);
    let (text, _, _) = transfer_tx(tip, 999, 10);
    let r = gw.send_transaction(text, config(), 1000);
    assert_eq!(r, Err(AdmissionError::TipInsufficient));
    assert_eq!(gw.store.len(), 0);
    assert!(gw.txn_sender.sent.is_empty());
    assert_eq!(
        AdmissionError::TipInsufficient.reason(),
        "no tip in the transaction or pays less than minimum tip"
    );
}

#[test]
fn confirmation_lands_and_removes() {
    let tip = Pubkey::new_unique();
    let mut gw = gateway(Some(tip), Some(1000), 3);
    let (text, _, sig) = transfer_tx(tip, 2000, 11);
    gw.send_transaction(text, config(), 1000).unwrap();
    let admitted_slot = gw.store.data_at(0).slot;
    gw.chain_state.confirm = Some(admitted_slot + 42);
    let out = gw.retry_transactions_tick(2000);
    assert_eq!(out.landed, 1);
    assert_eq!(out.latencies, vec![42]);
    assert_eq!(out.removed, vec![sig.clone()]);
    assert!(!gw.store.has_signature(&sig));
    assert_eq!(gw.store.len(), 0);
}

#[test]
fn stale_entry_is_evicted_despite_retries() {
    let tip = Pubkey::new_unique();
    let mut gw = gateway(Some(tip), Some(1000), 3);
    let (text, _, sig) = transfer_tx(tip, 2000, 12);
    gw.send_transaction(text, config(), 1000).unwrap();
    let out = gw.retry_transactions_tick(1000 + 61_000);
    assert_eq!(out.removed, vec![sig.clone()]);
    assert!(!gw.store.has_signature(&sig));
    // still resent once in the same tick: it had retries left
    assert_eq!(out.resent.len(), 1);
}

#[test]
fn oversized_batch_is_rejected_whole() {
    let tip = Pubkey::new_unique();
    let mut gw = gateway(Some(tip), Some(1000), 3);
    let mut batch = Vec::new();
    for i in 0..(MAX_BATCH_SIZE + 1) {
        let (text, _, _) = transfer_tx(tip, 2000, 50 + i as u8);
        batch.push(text);
    }
    let r = gw.send_transaction_batch(batch, config(), 1000);
    assert_eq!(r, Err(AdmissionError::BatchTooLarge));
    assert_eq!(gw.store.len(), 0);
    assert!(gw.txn_sender.batches.is_empty());
    assert_eq!(
        invalid_request(&AdmissionError::BatchTooLarge.reason()).message,
        "Invalid Request: batch size exceeded"
    );
}

#[test]
fn batch_admits_all_and_sends_once() {
    let tip = Pubkey::new_unique();
    let mut gw = gateway(Some(tip), Some(1000), 3);
    let (t1, b1, s1) = transfer_tx(tip, 2000, 21);
    let (t2, b2, s2) = transfer_tx(tip, 3000, 22);
    let r = gw.send_transaction_batch(vec![t1, t2], config(), 1000);
    assert_eq!(r, Ok(vec![s1.clone(), s2.clone()]));
    assert!(gw.store.has_signature(&s1));
    assert!(gw.store.has_signature(&s2));
    assert_eq!(gw.txn_sender.batches, vec![vec![b1, b2]]);
    assert!(gw.txn_sender.sent.is_empty());
}

#[test]
fn batch_partial_failure_keeps_earlier_entries() {
    let tip = Pubkey::new_unique();
    let mut gw = gateway(Some(tip), Some(1000), 3);
    let (t1, _, s1) = transfer_tx(tip, 2000, 23);
    let (t2, _, s2) = transfer_tx(tip, 1, 24);
    let r = gw.send_transaction_batch(vec![t1, t2], config(), 1000);
    assert_eq!(r, Err(AdmissionError::TipInsufficient));
    assert!(gw.store.has_signature(&s1));
    assert!(!gw.store.has_signature(&s2));
    // nothing was sent: the batch send happens only after full success
    assert!(gw.txn_sender.batches.is_empty());
}

#[test]
fn unsupported_encoding_never_touches_store() {
    let tip = Pubkey::new_unique();
    let mut gw = gateway(Some(tip), Some(1000), 3);
    let (text, _, _) = transfer_tx(tip, 2000, 25);
    let mut cfg = config();
    cfg.encoding = Some(Encoding::Json);
    let r = gw.send_transaction(text, cfg, 1000);
    assert_eq!(r, Err(AdmissionError::UnsupportedEncoding(Encoding::Json)));
    assert_eq!(gw.store.len(), 0);
    assert_eq!(
        AdmissionError::UnsupportedEncoding(Encoding::Json).reason(),
        "unsupported encoding: json. Supported encodings: base58, base64"
    );
}

#[test]
fn base64_encoding_is_accepted() {
    let tip = Pubkey::new_unique();
    let mut gw = gateway(Some(tip), Some(1000), 3);
    let (_, bytes, sig) = transfer_tx(tip, 2000, 26);
    let text64 = base64::engine::general_purpose::STANDARD.encode(&bytes);
    let mut cfg = config();
    cfg.encoding = Some(Encoding::Base64);
    let r = gw.send_transaction(text64, cfg, 1000);
    assert_eq!(r, Ok(sig));
}

#[test]
fn preflight_request_is_refused() {
    let tip = Pubkey::new_unique();
    let mut gw = gateway(Some(tip), Some(1000), 3);
    let (text, _, _) = transfer_tx(tip, 2000, 27);
    let mut cfg = config();
    cfg.skip_preflight = false;
    let r = gw.send_transaction(text, cfg, 1000);
    assert_eq!(r, Err(AdmissionError::PreflightUnsupported));
    assert_eq!(gw.store.len(), 0);
    assert_eq!(
        AdmissionError::PreflightUnsupported.reason(),
        "running preflight check is not supported"
    );
}

#[test]
fn malformed_base58_is_rejected() {
    let mut gw = gateway(None, None, 3);
    let r = gw.send_transaction("0OIl".to_string(), config(), 1000);
    assert_eq!(r, Err(AdmissionError::MalformedEncoding));
    assert_eq!(gw.store.len(), 0);
}

#[test]
fn undecodable_payload_is_rejected() {
    let mut gw = gateway(None, None, 3);
    let garbage = bs58::encode(&[5u8; 40]).into_string();
    let r = gw.send_transaction(garbage, config(), 1000);
    assert_eq!(r, Err(AdmissionError::DeserializationFailed));
    assert_eq!(gw.store.len(), 0);
}

#[test]
fn oversized_input_is_rejected_before_decoding() {
    let mut gw = gateway(None, None, 3);
    let huge = "1".repeat(1684);
    let r = gw.send_transaction(huge, config(), 1000);
    assert_eq!(r, Err(AdmissionError::OversizeInput));
    let big_payload = bs58::encode(&vec![1u8; PACKET_DATA_SIZE + 1]).into_string();
    let r2 = gw.send_transaction(big_payload, config(), 1000);
    assert_eq!(r2, Err(AdmissionError::OversizeInput));
}

#[test]
fn unset_tip_address_accepts_any_transaction() {
    let somewhere = Pubkey::new_unique();
    let mut gw = gateway(None, None, 3);
    let (text, _, sig) = transfer_tx(somewhere, 1, 28);
    let r = gw.send_transaction(text, config(), 1000);
    assert_eq!(r, Ok(sig));
}

#[test]
fn default_minimum_tip_applies_when_unset() {
    let tip = Pubkey::new_unique();
    let mut gw = gateway(Some(tip), None, 3);
    assert_eq!(gw.minimum_tip(), DEFAULT_MINIMUM_TIP);
    let (low, _, _) = transfer_tx(tip, 999, 29);
    assert_eq!(gw.send_transaction(low, config(), 1000), Err(AdmissionError::TipInsufficient));
    let (enough, _, sig) = transfer_tx(tip, 1000, 30);
    assert_eq!(gw.send_transaction(enough, config(), 1000), Ok(sig));
}

#[test]
fn requested_retries_are_capped_by_server_maximum() {
    let tip = Pubkey::new_unique();
    let mut gw = gateway(Some(tip), Some(1000), 3);
    let (text, _, _) = transfer_tx(tip, 2000, 31);
    let mut cfg = config();
    cfg.max_retries = Some(100);
    gw.send_transaction(text, cfg, 1000).unwrap();
    assert_eq!(gw.store.data_at(0).retry_count, 3);
}

#[test]
fn zero_retry_admission_is_evicted_without_resend() {
    let tip = Pubkey::new_unique();
    let mut gw = gateway(Some(tip), Some(1000), 3);
    let (text, _, sig) = transfer_tx(tip, 2000, 32);
    let mut cfg = config();
    cfg.max_retries = Some(0);
    gw.send_transaction(text, cfg, 1000).unwrap();
    // the admission send happened, but the tick neither resends nor keeps it
    assert_eq!(gw.txn_sender.sent.len(), 1);
    let out = gw.retry_transactions_tick(2000);
    assert!(out.resent.is_empty());
    assert_eq!(out.removed, vec![sig]);
    assert_eq!(gw.store.len(), 0);
    assert!(gw.txn_sender.batches.is_empty());
}

#[test]
fn retry_counts_never_rise_across_ticks() {
    let tip = Pubkey::new_unique();
    let mut gw = gateway(Some(tip), Some(1000), 5);
    let (t1, _, _) = transfer_tx(tip, 2000, 33);
    let (t2, _, _) = transfer_tx(tip, 2000, 34);
    gw.send_transaction(t1, config(), 1000).unwrap();
    gw.send_transaction(t2, config(), 1000).unwrap();
    let mut previous = vec![gw.store.data_at(0).retry_count, gw.store.data_at(1).retry_count];
    for tick in 0..4u64 {
        gw.retry_transactions_tick(2000 + tick);
        let mut current = Vec::new();
        for i in 0..gw.store.len() {
            current.push(gw.store.data_at(i).retry_count);
        }
        for (c, p) in current.iter().zip(previous.iter()) {
            assert!(c <= p);
        }
        previous = current;
    }
}

#[test]
fn retransmissions_are_chunked_by_batch_size() {
    let tip = Pubkey::new_unique();
    let mut gw = gateway(Some(tip), Some(1000), 3);
    for i in 0..(MAX_BATCH_SIZE + 2) {
        let (text, _, _) = transfer_tx(tip, 2000, 100 + i as u8);
        gw.send_transaction(text, config(), 1000).unwrap();
    }
    let out = gw.retry_transactions_tick(2000);
    assert_eq!(out.resent.len(), MAX_BATCH_SIZE + 2);
    assert_eq!(gw.txn_sender.batches.len(), 2);
    assert_eq!(gw.txn_sender.batches[0].len(), MAX_BATCH_SIZE);
    assert_eq!(gw.txn_sender.batches[1].len(), 2);
}

#[test]
fn signature_string_is_base58_of_first_signature() {
    let tip = Pubkey::new_unique();
    let mut gw = gateway(Some(tip), Some(1000), 3);
    let (text, bytes, _) = transfer_tx(tip, 2000, 41);
    let parsed: VersionedTransaction = bincode::deserialize(&bytes).unwrap();
    let expected = bs58::encode(parsed.signatures[0].as_ref()).into_string();
    let r = gw.send_transaction(text, config(), 1000);
    assert_eq!(r, Ok(expected));
}

#[test]
fn stored_wire_bytes_are_byte_exact() {
    let tip = Pubkey::new_unique();
    let mut gw = gateway(Some(tip), Some(1000), 3);
    let (text, bytes, _) = transfer_tx(tip, 2000, 42);
    gw.send_transaction(text, config(), 1000).unwrap();
    assert_eq!(gw.store.data_at(0).wire_transaction, bytes);
    let model: &ParsedTransaction = &gw.store.data_at(0).parsed_transaction;
    assert_eq!(model.signatures[0], vec![42u8; 64]);
    assert_eq!(model.instructions.len(), 1);
}

#[test]
fn health_and_version_report() {
    let gw = gateway(None, None, 3);
    assert_eq!(health(), "Ok(1.2)");
    assert_eq!(gw.get_version().version, "1.2");
}

#[test]
fn invalid_request_wraps_reason_with_code() {
    let e = invalid_request("some reason");
    assert_eq!(e.code, INVALID_PARAMS_CODE);
    assert_eq!(e.code, -32602);
    assert_eq!(e.message, "Invalid Request: some reason");
}

#[test]
fn empty_batch_succeeds_with_no_signatures() {
    let mut gw = gateway(None, None, 3);
    let r = gw.send_transaction_batch(Vec::new(), config(), 1000);
    assert_eq!(r, Ok(Vec::new()));
    assert_eq!(gw.store.len(), 0);
    assert_eq!(gw.txn_sender.batches, vec![Vec::<Vec<u8>>::new()]);
}

#[test]
fn reencoded_duplicate_is_caught_by_signature() {
    let tip = Pubkey::new_unique();
    let mut gw = gateway(Some(tip), Some(1000), 3);
    let (text58, bytes, _) = transfer_tx(tip, 2000, 43);
    gw.send_transaction(text58, config(), 1000).unwrap();
    let text64 = base64::engine::general_purpose::STANDARD.encode(&bytes);
    let mut cfg = config();
    cfg.encoding = Some(Encoding::Base64);
    let r = gw.send_transaction(text64, cfg, 1100);
    assert_eq!(r, Err(AdmissionError::Duplicate));
    assert_eq!(gw.store.len(), 1);
}
