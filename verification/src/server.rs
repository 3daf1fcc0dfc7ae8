//! The RPC gateway: admission of client transactions (decode, de-duplicate,
//! tip check, enrol in the retry store, first send) and the per-tick
//! reconciliation of the store against observed chain state.
//!
//! The downstream sender and the chain-state oracle are collaborators that
//! the embedding runtime implements; the gateway promises nothing about
//! what they do, only about its own store and results. The runtime also
//! drives the retry schedule, calling [`IrisRpcServerImpl::retry_transactions_tick`]
//! once per retry interval, and supplies the current milliseconds of a
//! monotonic clock to every call that needs time.

use vstd::prelude::*;
use crate::codec::{
    decode_transaction, encode_base58, base58_encoding, decode_spec, BinaryEncoding, DecodeError,
    ParsedTransaction, TxView,
};
use crate::store::{
    store_contains, EntryView, TransactionData, TransactionStore, TxDataView,
};
use crate::tip::pays_tip;
use vstd::slice::slice_to_vec;

verus! {

/// Default minimum tip in lamports when a tip address is configured without
/// an explicit minimum.
pub const DEFAULT_MINIMUM_TIP: u64 = 1000;

/// Hard cap on inbound batch size and on each outbound retry batch.
pub const MAX_BATCH_SIZE: usize = 10;

/// An entry older than this many milliseconds is evicted regardless of its
/// retry state.
pub const STALE_AFTER_MS: u64 = 60000;

/// JSON-RPC error code for an invalid request.
pub const INVALID_PARAMS_CODE: i32 = -32602;

/// The encodings a client may name for a submitted transaction.
#[derive(Clone, Copy, PartialEq, Eq, Structural, Debug)]
pub enum Encoding {
    Binary,
    Base58,
    Base64,
    Base64Zstd,
    Json,
    JsonParsed,
}

/// The wire encoding an `Encoding` stands for, where it stands for one.
pub open spec fn encoding_binary(e: Encoding) -> Option<BinaryEncoding> {
    match e {
        Encoding::Binary => Some(BinaryEncoding::Base58),
        Encoding::Base58 => Some(BinaryEncoding::Base58),
        Encoding::Base64 => Some(BinaryEncoding::Base64),
        _ => None,
    }
}

/// The name of an encoding as it appears in requests and error texts.
pub open spec fn encoding_name(e: Encoding) -> Seq<char> {
    match e {
        Encoding::Binary => "binary"@,
        Encoding::Base58 => "base58"@,
        Encoding::Base64 => "base64"@,
        Encoding::Base64Zstd => "base64+zstd"@,
        Encoding::Json => "json"@,
        Encoding::JsonParsed => "jsonParsed"@,
    }
}

impl Encoding {
    /// The wire encoding this stands for; `None` for the encodings the
    /// gateway does not support.
    pub fn into_binary_encoding(self) -> (r: Option<BinaryEncoding>)
        ensures
            r == encoding_binary(self),
    {
        match self {
            Encoding::Binary => Some(BinaryEncoding::Base58),
            Encoding::Base58 => Some(BinaryEncoding::Base58),
            Encoding::Base64 => Some(BinaryEncoding::Base64),
            _ => None,
        }
    }

    /// The encoding's name.
    pub fn name(self) -> (r: &'static str)
        ensures
            r@ == encoding_name(self),
    {
        match self {
            Encoding::Binary => "binary",
            Encoding::Base58 => "base58",
            Encoding::Base64 => "base64",
            Encoding::Base64Zstd => "base64+zstd",
            Encoding::Json => "json",
            Encoding::JsonParsed => "jsonParsed",
        }
    }
}

/// Per-request configuration recognized by both admission entrypoints.
#[derive(Clone, Copy, PartialEq, Eq, Structural)]
pub struct SendTransactionConfig {
    /// Must be true: the gateway does not run preflight checks.
    pub skip_preflight: bool,
    /// Wire encoding of the submitted string; base-58 when absent.
    pub encoding: Option<Encoding>,
    /// Requested retry budget; capped by the server's maximum.
    pub max_retries: Option<usize>,
}

/// Why admission refused a transaction.
#[derive(Clone, Copy, PartialEq, Eq, Structural, Debug)]
pub enum AdmissionError {
    /// The submitted string, or the decoded signature, is already stored.
    Duplicate,
    /// The request asked for a preflight check.
    PreflightUnsupported,
    /// The named encoding is not base-58 or base-64.
    UnsupportedEncoding(Encoding),
    /// The encoded string or the decoded payload is over the size limit.
    OversizeInput,
    /// The string is not valid under the named encoding.
    MalformedEncoding,
    /// The payload is not a signed versioned transaction.
    DeserializationFailed,
    /// No qualifying tip transfer was found.
    TipInsufficient,
    /// The batch holds more than `MAX_BATCH_SIZE` transactions.
    BatchTooLarge,
}

/// The admission error a decode error surfaces as.
pub open spec fn admission_of_decode(e: DecodeError) -> AdmissionError {
    match e {
        DecodeError::OversizeInput => AdmissionError::OversizeInput,
        DecodeError::MalformedEncoding => AdmissionError::MalformedEncoding,
        DecodeError::DeserializationFailed => AdmissionError::DeserializationFailed,
    }
}

impl AdmissionError {
    /// The reason text reported to the client, as the body of an
    /// `Invalid Request` error.
    pub fn reason(&self) -> (r: String)
        ensures
            r@ == reason_text(*self),
    {
        match self {
            AdmissionError::Duplicate => "duplicate transaction".to_owned(),
            AdmissionError::PreflightUnsupported =>
                "running preflight check is not supported".to_owned(),
            AdmissionError::UnsupportedEncoding(e) => "unsupported encoding: ".to_owned().concat(
                e.name(),
            ).concat(". Supported encodings: base58, base64"),
            AdmissionError::OversizeInput => "encoded transaction too large".to_owned(),
            AdmissionError::MalformedEncoding => "failed to decode transaction".to_owned(),
            AdmissionError::DeserializationFailed =>
                "failed to deserialize transaction".to_owned(),
            AdmissionError::TipInsufficient =>
                "no tip in the transaction or pays less than minimum tip".to_owned(),
            AdmissionError::BatchTooLarge => "batch size exceeded".to_owned(),
        }
    }
}

/// The reason text of each admission error.
pub open spec fn reason_text(e: AdmissionError) -> Seq<char> {
    match e {
        AdmissionError::Duplicate => "duplicate transaction"@,
        AdmissionError::PreflightUnsupported => "running preflight check is not supported"@,
        AdmissionError::UnsupportedEncoding(enc) => "unsupported encoding: "@
            + encoding_name(enc) + ". Supported encodings: base58, base64"@,
        AdmissionError::OversizeInput => "encoded transaction too large"@,
        AdmissionError::MalformedEncoding => "failed to decode transaction"@,
        AdmissionError::DeserializationFailed => "failed to deserialize transaction"@,
        AdmissionError::TipInsufficient =>
            "no tip in the transaction or pays less than minimum tip"@,
        AdmissionError::BatchTooLarge => "batch size exceeded"@,
    }
}

/// A JSON-RPC error object: a code and a message.
pub struct RpcError {
    pub code: i32,
    pub message: String,
}

/// Wrap a reason as the invalid-request error handed back to the client.
pub fn invalid_request(reason: &str) -> (e: RpcError)
    ensures
        e.code == INVALID_PARAMS_CODE,
        e.message@ == "Invalid Request: "@ + reason@,
{
    RpcError { code: INVALID_PARAMS_CODE, message: "Invalid Request: ".to_owned().concat(reason) }
}

/// What the health endpoint reports.
pub fn health() -> (r: String)
    ensures
        r@ == "Ok(1.2)"@,
{
    "Ok(1.2)".to_owned()
}

/// The version report of the server.
pub struct VersionResponse {
    pub version: String,
}

/// The downstream transaction sender: fire and forget, nothing is promised
/// about delivery. The embedding runtime implements this.
pub trait SendTransactionClient {
    fn send_transaction(&mut self, wire_transaction: Vec<u8>);

    fn send_transaction_batch(&mut self, wire_transactions: Vec<Vec<u8>>);
}

/// The chain-state oracle: the current slot, and whether a signature has
/// been observed at confirmed level (and at which slot). The embedding
/// runtime implements this; a failed lookup is reported as `None`.
pub trait ChainStateClient {
    fn get_slot(&mut self) -> u64;

    fn confirm_signature_status(&mut self, signature: &String) -> Option<u64>;
}

/// What one admitted transaction comes to, before the slot is read: its
/// signature string, its wire bytes, its structural form and its granted
/// retry budget.
pub ghost struct AdmitOk {
    pub sig: Seq<char>,
    pub wire: Seq<u8>,
    pub tx: TxView,
    pub retry_count: usize,
}

/// The retry budget granted: the requested count capped by the server
/// maximum, or the server maximum when none is requested.
pub open spec fn granted_retries(requested: Option<usize>, server_max: u32) -> usize {
    match requested {
        Some(r) => if r < server_max as usize { r } else { server_max as usize },
        None => server_max as usize,
    }
}

/// What admitting `text` against `entries` decides, step by step: duplicate
/// check on the raw string, preflight refusal, encoding whitelist, decode,
/// tip policy, then the cooperative uniqueness check on the decoded
/// signature before insertion.
pub open spec fn admit_spec(
    entries: Seq<EntryView>,
    text: Seq<char>,
    params: SendTransactionConfig,
    server_max: u32,
    tip_address: Option<Seq<u8>>,
    minimum_tip: u64,
) -> Result<AdmitOk, AdmissionError> {
    if store_contains(entries, text) {
        Err(AdmissionError::Duplicate)
    } else if !params.skip_preflight {
        Err(AdmissionError::PreflightUnsupported)
    } else {
        let enc = match params.encoding {
            Some(e) => e,
            None => Encoding::Base58,
        };
        match encoding_binary(enc) {
            None => Err(AdmissionError::UnsupportedEncoding(enc)),
            Some(benc) => match decode_spec(text, benc) {
                Err(e) => Err(admission_of_decode(e)),
                Ok((wire, tx)) => if !pays_tip(tx, tip_address, minimum_tip) {
                    Err(AdmissionError::TipInsufficient)
                } else {
                    let sig = base58_encoding(tx.signatures[0]);
                    if store_contains(entries, sig) {
                        Err(AdmissionError::Duplicate)
                    } else {
                        Ok(AdmitOk {
                            sig,
                            wire,
                            tx,
                            retry_count: granted_retries(params.max_retries, server_max),
                        })
                    }
                },
            },
        }
    }
}

/// The store entry an admission decision becomes, once the observed slot
/// and the admission time are known.
pub open spec fn admitted_entry(ok: AdmitOk, slot: u64, now_ms: u64) -> EntryView {
    EntryView {
        sig: ok.sig,
        data: TxDataView {
            wire_transaction: ok.wire,
            parsed_transaction: ok.tx,
            slot: slot,
            sent_at: now_ms,
            retry_count: ok.retry_count,
        },
    }
}

/// The gateway. `S` sends wire transactions downstream; `C` answers
/// chain-state queries.
pub struct IrisRpcServerImpl<S: SendTransactionClient, C: ChainStateClient> {
    pub txn_sender: S,
    pub store: TransactionStore,
    pub chain_state: C,
    /// Period of the retry schedule, for the runtime that drives it.
    pub retry_interval_ms: u64,
    /// Server-side cap on per-transaction retries.
    pub max_retries: u32,
    pub version: VersionResponse,
    /// Required recipient of a qualifying tip transfer; unset disables the
    /// tip policy.
    pub tip_address: Option<Vec<u8>>,
    /// Minimum lamports on the qualifying transfer; `DEFAULT_MINIMUM_TIP`
    /// when unset.
    pub minimum_tip: Option<u64>,
}

impl<S: SendTransactionClient, C: ChainStateClient> IrisRpcServerImpl<S, C> {
    /// The store's keys are pairwise distinct.
    pub open spec fn wf(&self) -> bool {
        self.store.wf()
    }

    /// The configured tip address, as bytes.
    pub open spec fn tip_view(&self) -> Option<Seq<u8>> {
        match self.tip_address {
            Some(a) => Some(a@),
            None => None,
        }
    }

    /// The minimum tip in force.
    pub open spec fn spec_minimum_tip(&self) -> u64 {
        match self.minimum_tip {
            Some(v) => v,
            None => DEFAULT_MINIMUM_TIP,
        }
    }

    /// The configuration fields are those of `other`.
    pub open spec fn same_config(&self, other: &Self) -> bool {
        &&& self.retry_interval_ms == other.retry_interval_ms
        &&& self.max_retries == other.max_retries
        &&& self.version.version == other.version.version
        &&& self.tip_address == other.tip_address
        &&& self.minimum_tip == other.minimum_tip
    }

    /// Assemble a gateway. The caller keeps driving the retry schedule:
    /// one call of `retry_transactions_tick` per `retry_interval_ms`.
    pub fn new(
        txn_sender: S,
        store: TransactionStore,
        chain_state: C,
        retry_interval_ms: u64,
        max_retries: u32,
        version: VersionResponse,
        tip_address: Option<Vec<u8>>,
        minimum_tip: Option<u64>,
    ) -> (r: Self)
        requires
            store.wf(),
        ensures
            r.wf(),
            r.store.entries() == store.entries(),
            r.retry_interval_ms == retry_interval_ms,
            r.max_retries == max_retries,
            r.version.version == version.version,
            r.tip_address == tip_address,
            r.minimum_tip == minimum_tip,
    {
        IrisRpcServerImpl {
            txn_sender,
            store,
            chain_state,
            retry_interval_ms,
            max_retries,
            version,
            tip_address,
            minimum_tip,
        }
    }

    /// The minimum tip in force: the configured value, or the default.
    pub fn minimum_tip(&self) -> (r: u64)
        ensures
            r == self.spec_minimum_tip(),
    {
        match self.minimum_tip {
            Some(v) => v,
            None => DEFAULT_MINIMUM_TIP,
        }
    }

    /// Whether the transaction satisfies the tip policy.
    pub fn pays_minimum_tip(&self, tx: &ParsedTransaction) -> (r: bool)
        ensures
            r == pays_tip(tx@, self.tip_view(), self.spec_minimum_tip()),
    {
        let tip = match &self.tip_address {
            None => {
                return true;
            },
            Some(t) => t,
        };
        let min_tip = self.minimum_tip();
        let n = tx.instructions.len();
        for i in 0..n
            invariant
                n == tx.instructions.len(),
                self.tip_view() == Some(tip@),
                min_tip == self.spec_minimum_tip(),
                forall|k: int| 0 <= k < i ==> !crate::tip::qualifying_tip(tx@, k, tip@, min_tip),
        {
            let ins = &tx.instructions[i];
            proof {
                assert(tx@.instructions[i as int] == tx.instructions@[i as int]@);
            }
            let pid = ins.program_id_index as usize;
            if pid < tx.static_keys.len() && crate::tip::is_system_program(&tx.static_keys[pid]) {
                proof {
                    assert(tx@.static_keys[pid as int] == tx.static_keys@[pid as int]@);
                }
                match crate::tip::parse_system_transfer(&ins.data) {
                    Some(lamports) => if lamports >= min_tip && ins.accounts.len() >= 2 {
                        let ridx = ins.accounts[1] as usize;
                        if ridx < tx.static_keys.len() && crate::tip::bytes_eq(
                            &tx.static_keys[ridx],
                            tip,
                        ) {
                            proof {
                                assert(tx@.static_keys[ridx as int] == tx.static_keys@[ridx as int]@);
                                assert(crate::tip::qualifying_tip(tx@, i as int, tip@, min_tip));
                                crate::tip::lemma_qualifying_pays(tx@, i as int, tip@, min_tip);
                            }
                            return true;
                        }
                    },
                    None => {},
                }
            }
            proof {
                assert(!crate::tip::qualifying_tip(tx@, i as int, tip@, min_tip));
            }
        }
        false
    }

    /// The server's version report.
    pub fn get_version(&self) -> (r: VersionResponse)
        ensures
            r.version@ == self.version.version@,
    {
        VersionResponse { version: self.version.version.clone() }
    }

    /// Admit one transaction, without the first send: duplicate check on
    /// the raw client string, preflight refusal, decode under the requested
    /// encoding, tip policy, uniqueness of the decoded signature; then
    /// enrol it in the store. No error leaves a partial entry behind. The
    /// signature string and the wire bytes of the admitted transaction are
    /// handed back for the caller's send.
    pub fn admit_one(
        &mut self,
        txn: String,
        params: SendTransactionConfig,
        now_ms: u64,
    ) -> (r: Result<(String, Vec<u8>), AdmissionError>)
        requires
            old(self).wf(),
        ensures
            final(self).wf(),
            final(self).same_config(old(self)),
            match r {
                Err(e) => {
                    &&& admit_spec(
                        old(self).store.entries(),
                        txn@,
                        params,
                        old(self).max_retries,
                        old(self).tip_view(),
                        old(self).spec_minimum_tip(),
                    ) == Err::<AdmitOk, AdmissionError>(e)
                    &&& final(self).store.entries() == old(self).store.entries()
                },
                Ok(sw) => {
                    &&& admit_spec(
                        old(self).store.entries(),
                        txn@,
                        params,
                        old(self).max_retries,
                        old(self).tip_view(),
                        old(self).spec_minimum_tip(),
                    ) matches Ok(ok)
                    &&& sw.0@ == ok.sig
                    &&& sw.1@ == ok.wire
                    &&& exists|slot: u64|
                        final(self).store.entries() == old(self).store.entries().push(
                            #[trigger] admitted_entry(ok, slot, now_ms),
                        )
                },
            },
    {
        if self.store.has_signature(&txn) {
            return Err(AdmissionError::Duplicate);
        }
        if !params.skip_preflight {
            return Err(AdmissionError::PreflightUnsupported);
        }
        let encoding = match params.encoding {
            Some(e) => e,
            None => Encoding::Base58,
        };
        let benc = match encoding.into_binary_encoding() {
            None => {
                return Err(AdmissionError::UnsupportedEncoding(encoding));
            },
            Some(b) => b,
        };
        let decoded = match decode_transaction(&txn, benc) {
            Err(e) => {
                return Err(match e {
                    DecodeError::OversizeInput => AdmissionError::OversizeInput,
                    DecodeError::MalformedEncoding => AdmissionError::MalformedEncoding,
                    DecodeError::DeserializationFailed => AdmissionError::DeserializationFailed,
                });
            },
            Ok(p) => p,
        };
        let wire = decoded.0;
        let parsed = decoded.1;
        if !self.pays_minimum_tip(&parsed) {
            return Err(AdmissionError::TipInsufficient);
        }
        proof {
            assert(parsed@.signatures[0] == parsed.signatures@[0]@);
        }
        let signature = encode_base58(&parsed.signatures[0]);
        if self.store.has_signature(&signature) {
            return Err(AdmissionError::Duplicate);
        }
        let slot = self.chain_state.get_slot();
        let retry_count = match params.max_retries {
            Some(rq) => if rq < self.max_retries as usize {
                rq
            } else {
                self.max_retries as usize
            },
            None => self.max_retries as usize,
        };
        let ghost wire_v = wire@;
        let ghost parsed_v = parsed@;
        let ghost sig_v = signature@;
        let wire_send = slice_to_vec(wire.as_slice());
        let sig_out = signature.clone();
        let data = TransactionData::new(wire, parsed, slot, now_ms, retry_count);
        proof {
            let entries0 = old(self).store.entries();
            let a = admit_spec(
                entries0,
                txn@,
                params,
                old(self).max_retries,
                old(self).tip_view(),
                old(self).spec_minimum_tip(),
            );
            assert(a matches Ok(ok) && ok == (AdmitOk {
                sig: sig_v,
                wire: wire_v,
                tx: parsed_v,
                retry_count: retry_count,
            }));
            assert(data@ == admitted_entry(
                AdmitOk { sig: sig_v, wire: wire_v, tx: parsed_v, retry_count: retry_count },
                slot,
                now_ms,
            ).data);
        }
        self.store.add_transaction(signature, data);
        proof {
            let ok = AdmitOk { sig: sig_v, wire: wire_v, tx: parsed_v, retry_count: retry_count };
            assert(self.store.entries() == old(self).store.entries().push(
                admitted_entry(ok, slot, now_ms),
            ));
        }
        Ok((sig_out, wire_send))
    }

    /// Admit one transaction and hand its wire bytes to the downstream
    /// sender. The store gains the entry before the first send, so a retry
    /// tick between the two resends rather than misses it; no error leaves
    /// a partial entry behind. On success the base-58 signature string is
    /// returned, and it is in the store.
    pub fn send_transaction(
        &mut self,
        txn: String,
        params: SendTransactionConfig,
        now_ms: u64,
    ) -> (r: Result<String, AdmissionError>)
        requires
            old(self).wf(),
        ensures
            final(self).wf(),
            final(self).same_config(old(self)),
            match r {
                Err(e) => {
                    &&& admit_spec(
                        old(self).store.entries(),
                        txn@,
                        params,
                        old(self).max_retries,
                        old(self).tip_view(),
                        old(self).spec_minimum_tip(),
                    ) == Err::<AdmitOk, AdmissionError>(e)
                    &&& final(self).store.entries() == old(self).store.entries()
                },
                Ok(sig) => {
                    &&& admit_spec(
                        old(self).store.entries(),
                        txn@,
                        params,
                        old(self).max_retries,
                        old(self).tip_view(),
                        old(self).spec_minimum_tip(),
                    ) matches Ok(ok)
                    &&& sig@ == ok.sig
                    &&& exists|slot: u64|
                        final(self).store.entries() == old(self).store.entries().push(
                            #[trigger] admitted_entry(ok, slot, now_ms),
                        )
                    &&& store_contains(final(self).store.entries(), sig@)
                },
            },
    {
        match self.admit_one(txn, params, now_ms) {
            Err(e) => Err(e),
            Ok(sw) => {
                let sig = sw.0;
                proof {
                    let entries1 = self.store.entries();
                    let slot = choose|slot: u64|
                        entries1 == old(self).store.entries().push(
                            #[trigger] admitted_entry(
                                admit_spec(
                                    old(self).store.entries(),
                                    txn@,
                                    params,
                                    old(self).max_retries,
                                    old(self).tip_view(),
                                    old(self).spec_minimum_tip(),
                                )->Ok_0,
                                slot,
                                now_ms,
                            ),
                        );
                    assert(entries1[entries1.len() - 1].sig == sig@);
                }
                self.txn_sender.send_transaction(sw.1);
                Ok(sig)
            },
        }
    }

    /// Admit a whole batch: at most `MAX_BATCH_SIZE` transactions, each
    /// admitted as a single submission would be, in order and against the
    /// store as the earlier elements left it. Only after every element is
    /// admitted are the wire transactions handed to the sender as one
    /// batch. A mid-batch failure returns that element's error and leaves
    /// the earlier elements in the store: partial failure does not roll
    /// back, and nothing is sent.
    pub fn send_transaction_batch(
        &mut self,
        batch: Vec<String>,
        params: SendTransactionConfig,
        now_ms: u64,
    ) -> (r: Result<Vec<String>, AdmissionError>)
        requires
            old(self).wf(),
        ensures
            final(self).wf(),
            final(self).same_config(old(self)),
            batch@.len() > MAX_BATCH_SIZE ==> r == Err::<Vec<String>, AdmissionError>(
                AdmissionError::BatchTooLarge,
            ) && final(self).store.entries() == old(self).store.entries(),
            batch@.len() <= MAX_BATCH_SIZE ==> exists|slots: Seq<u64>|
                #[trigger] batch_admit_post(
                    old(self).store.entries(),
                    strings_view(batch@),
                    params,
                    old(self).max_retries,
                    old(self).tip_view(),
                    old(self).spec_minimum_tip(),
                    slots,
                    now_ms,
                    batch_result_view(r),
                    final(self).store.entries(),
                ),
    {
        if batch.len() > MAX_BATCH_SIZE {
            return Err(AdmissionError::BatchTooLarge);
        }
        let ghost entries0 = self.store.entries();
        let ghost texts = strings_view(batch@);
        let ghost smax = self.max_retries;
        let ghost tip = self.tip_view();
        let ghost mintip = self.spec_minimum_tip();
        let mut wired: Vec<Vec<u8>> = Vec::new();
        let mut signatures: Vec<String> = Vec::new();
        let ghost mut slots_g: Seq<u64> = Seq::empty();
        let n = batch.len();
        proof {
            assert(texts.take(0) =~= Seq::<Seq<char>>::empty());
            assert(signatures@.map_values(|s: String| s@) =~= Seq::<Seq<char>>::empty());
        }
        for i in 0..n
            invariant
                n == batch@.len(),
                n <= MAX_BATCH_SIZE,
                texts == strings_view(batch@),
                entries0 == old(self).store.entries(),
                smax == old(self).max_retries,
                tip == old(self).tip_view(),
                mintip == old(self).spec_minimum_tip(),
                old(self).wf(),
                self.wf(),
                self.same_config(old(self)),
                slots_g.len() == i,
                batch_admit_spec(entries0, texts.take(i as int), params, smax, tip, mintip,
                    slots_g, now_ms).0 == Ok::<Seq<Seq<char>>, AdmissionError>(
                    signatures@.map_values(|s: String| s@),
                ),
                batch_admit_spec(entries0, texts.take(i as int), params, smax, tip, mintip,
                    slots_g, now_ms).1 == self.store.entries(),
        {
            let ghost entries_pre = self.store.entries();
            let ghost sigs_pre = signatures@;
            let txn = batch[i].clone();
            proof {
                assert(txn@ == texts[i as int]);
            }
            match self.admit_one(txn, params, now_ms) {
                Err(e) => {
                    proof {
                        let ghost slots_pad = slots_g + Seq::new((n - i) as nat, |j: int| 0u64);
                        assert(texts =~= texts.take(i as int) + seq![texts[i as int]]
                            + texts.skip(i as int + 1));
                        lemma_batch_admit_fail(
                            entries0,
                            texts.take(i as int),
                            texts[i as int],
                            texts.skip(i as int + 1),
                            params,
                            smax,
                            tip,
                            mintip,
                            slots_g,
                            Seq::new((n - i) as nat, |j: int| 0u64),
                            now_ms,
                        );
                        assert(slots_pad.len() == texts.len());
                        assert(batch_admit_post(entries0, texts, params, smax, tip, mintip,
                            slots_pad, now_ms, Err(e), self.store.entries()));
                    }
                    return Err(e);
                },
                Ok(sw) => {
                    signatures.push(sw.0);
                    wired.push(sw.1);
                    proof {
                        let a = admit_spec(entries_pre, texts[i as int], params, smax, tip, mintip);
                        let slot = choose|slot: u64|
                            self.store.entries() == entries_pre.push(
                                #[trigger] admitted_entry(a->Ok_0, slot, now_ms),
                            );
                        lemma_batch_admit_push(
                            entries0,
                            texts.take(i as int),
                            params,
                            smax,
                            tip,
                            mintip,
                            slots_g,
                            now_ms,
                            texts[i as int],
                            slot,
                        );
                        slots_g = slots_g.push(slot);
                        assert(texts.take(i as int + 1) =~= texts.take(i as int).push(
                            texts[i as int],
                        ));
                        assert(signatures@.map_values(|s: String| s@) =~= sigs_pre.map_values(
                            |s: String| s@,
                        ).push(a->Ok_0.sig));
                    }
                },
            }
        }
        self.txn_sender.send_transaction_batch(wired);
        proof {
            assert(texts.take(n as int) =~= texts);
            assert(batch_admit_post(entries0, texts, params, smax, tip, mintip, slots_g, now_ms,
                Ok(signatures@.map_values(|s: String| s@)), self.store.entries()));
        }
        Ok(signatures)
    }
}

/// The views of a sequence of strings.
pub open spec fn strings_view(v: Seq<String>) -> Seq<Seq<char>> {
    v.map_values(|s: String| s@)
}

/// The view of a batch result: each signature string as its characters.
pub open spec fn batch_result_view(r: Result<Vec<String>, AdmissionError>) -> Result<
    Seq<Seq<char>>,
    AdmissionError,
> {
    match r {
        Ok(sigs) => Ok(strings_view(sigs@)),
        Err(e) => Err(e),
    }
}

/// One batch admission step after another: each element is admitted against
/// the store as the earlier elements left it, each successful element's
/// entry is built with the matching slot of `slots`, and the first error
/// stops the recursion with the entries admitted so far kept.
pub open spec fn batch_admit_spec(
    entries: Seq<EntryView>,
    texts: Seq<Seq<char>>,
    params: SendTransactionConfig,
    server_max: u32,
    tip_address: Option<Seq<u8>>,
    minimum_tip: u64,
    slots: Seq<u64>,
    now_ms: u64,
) -> (Result<Seq<Seq<char>>, AdmissionError>, Seq<EntryView>)
    decreases texts.len(),
{
    if texts.len() == 0 {
        (Ok(Seq::empty()), entries)
    } else {
        match admit_spec(entries, texts[0], params, server_max, tip_address, minimum_tip) {
            Err(e) => (Err(e), entries),
            Ok(ok) => {
                let rest = batch_admit_spec(
                    entries.push(admitted_entry(ok, slots[0], now_ms)),
                    texts.drop_first(),
                    params,
                    server_max,
                    tip_address,
                    minimum_tip,
                    slots.drop_first(),
                    now_ms,
                );
                match rest.0 {
                    Ok(sigs) => (Ok(seq![ok.sig] + sigs), rest.1),
                    Err(e) => (Err(e), rest.1),
                }
            },
        }
    }
}

/// How a batch call relates its inputs, some sequence of observed slots,
/// its result and the store it leaves behind.
pub open spec fn batch_admit_post(
    entries: Seq<EntryView>,
    texts: Seq<Seq<char>>,
    params: SendTransactionConfig,
    server_max: u32,
    tip_address: Option<Seq<u8>>,
    minimum_tip: u64,
    slots: Seq<u64>,
    now_ms: u64,
    result: Result<Seq<Seq<char>>, AdmissionError>,
    post: Seq<EntryView>,
) -> bool {
    let b = batch_admit_spec(
        entries,
        texts,
        params,
        server_max,
        tip_address,
        minimum_tip,
        slots,
        now_ms,
    );
    &&& slots.len() == texts.len()
    &&& b.0 == result
    &&& b.1 == post
}

/// A batch extended by one more admissible element appends that element's
/// signature and entry.
proof fn lemma_batch_admit_push(
    entries: Seq<EntryView>,
    texts: Seq<Seq<char>>,
    params: SendTransactionConfig,
    server_max: u32,
    tip_address: Option<Seq<u8>>,
    minimum_tip: u64,
    slots: Seq<u64>,
    now_ms: u64,
    t: Seq<char>,
    s: u64,
)
    requires
        texts.len() == slots.len(),
        batch_admit_spec(entries, texts, params, server_max, tip_address, minimum_tip, slots,
            now_ms).0 is Ok,
    ensures
        ({
            let b = batch_admit_spec(entries, texts, params, server_max, tip_address, minimum_tip,
                slots, now_ms);
            let b1 = batch_admit_spec(entries, texts.push(t), params, server_max, tip_address,
                minimum_tip, slots.push(s), now_ms);
            match admit_spec(b.1, t, params, server_max, tip_address, minimum_tip) {
                Ok(ok) => b1.0 == Ok::<Seq<Seq<char>>, AdmissionError>(
                    b.0->Ok_0.push(ok.sig),
                ) && b1.1 == b.1.push(admitted_entry(ok, s, now_ms)),
                Err(e) => b1.0 == Err::<Seq<Seq<char>>, AdmissionError>(e) && b1.1 == b.1,
            }
        }),
    decreases texts.len(),
{
    let b = batch_admit_spec(entries, texts, params, server_max, tip_address, minimum_tip, slots,
        now_ms);
    let b1 = batch_admit_spec(entries, texts.push(t), params, server_max, tip_address, minimum_tip,
        slots.push(s), now_ms);
    if texts.len() == 0 {
        assert(texts.push(t)[0] == t);
        assert(texts.push(t).drop_first() =~= texts);
        assert(slots.push(s)[0] == s);
        assert(slots.push(s).drop_first() =~= slots);
        match admit_spec(entries, t, params, server_max, tip_address, minimum_tip) {
            Ok(ok) => {
                let entries1 = entries.push(admitted_entry(ok, s, now_ms));
                assert(batch_admit_spec(entries1, texts, params, server_max, tip_address,
                    minimum_tip, slots, now_ms).0 == Ok::<Seq<Seq<char>>, AdmissionError>(
                    Seq::empty(),
                ));
                assert(batch_admit_spec(entries1, texts, params, server_max, tip_address,
                    minimum_tip, slots, now_ms).1 == entries1);
                assert(b1.0 == Ok::<Seq<Seq<char>>, AdmissionError>(seq![ok.sig] + Seq::empty()));
                assert(seq![ok.sig] + Seq::<Seq<char>>::empty() =~= b.0->Ok_0.push(ok.sig));
                assert(b.0->Ok_0.push(ok.sig) =~= seq![ok.sig] + Seq::<Seq<char>>::empty());
            },
            Err(e) => {},
        }
    } else {
        assert(texts.push(t)[0] == texts[0]);
        assert(texts.push(t).drop_first() =~= texts.drop_first().push(t));
        assert(slots.push(s)[0] == slots[0]);
        assert(slots.push(s).drop_first() =~= slots.drop_first().push(s));
        let a0 = admit_spec(entries, texts[0], params, server_max, tip_address, minimum_tip);
        assert(a0 is Ok);
        let entries1 = entries.push(admitted_entry(a0->Ok_0, slots[0], now_ms));
        lemma_batch_admit_push(
            entries1,
            texts.drop_first(),
            params,
            server_max,
            tip_address,
            minimum_tip,
            slots.drop_first(),
            now_ms,
            t,
            s,
        );
        let r = batch_admit_spec(entries1, texts.drop_first(), params, server_max, tip_address,
            minimum_tip, slots.drop_first(), now_ms);
        match admit_spec(b.1, t, params, server_max, tip_address, minimum_tip) {
            Ok(ok) => {
                assert(b1.0 == Ok::<Seq<Seq<char>>, AdmissionError>(
                    seq![a0->Ok_0.sig] + r.0->Ok_0.push(ok.sig),
                ));
                assert(seq![a0->Ok_0.sig] + r.0->Ok_0.push(ok.sig) =~= (seq![a0->Ok_0.sig]
                    + r.0->Ok_0).push(ok.sig));
            },
            Err(e) => {},
        }
    }
}

/// A batch whose next element fails keeps the entries admitted so far and
/// returns that element's error, whatever comes after.
proof fn lemma_batch_admit_fail(
    entries: Seq<EntryView>,
    texts1: Seq<Seq<char>>,
    t: Seq<char>,
    texts_rest: Seq<Seq<char>>,
    params: SendTransactionConfig,
    server_max: u32,
    tip_address: Option<Seq<u8>>,
    minimum_tip: u64,
    slots1: Seq<u64>,
    slots_rest: Seq<u64>,
    now_ms: u64,
)
    requires
        texts1.len() == slots1.len(),
        batch_admit_spec(entries, texts1, params, server_max, tip_address, minimum_tip, slots1,
            now_ms).0 is Ok,
        admit_spec(
            batch_admit_spec(entries, texts1, params, server_max, tip_address, minimum_tip,
                slots1, now_ms).1,
            t,
            params,
            server_max,
            tip_address,
            minimum_tip,
        ) is Err,
    ensures
        ({
            let b = batch_admit_spec(entries, texts1, params, server_max, tip_address, minimum_tip,
                slots1, now_ms);
            let b2 = batch_admit_spec(entries, texts1 + seq![t] + texts_rest, params, server_max,
                tip_address, minimum_tip, slots1 + slots_rest, now_ms);
            match admit_spec(b.1, t, params, server_max, tip_address, minimum_tip) {
                Err(e) => b2.0 == Err::<Seq<Seq<char>>, AdmissionError>(e) && b2.1 == b.1,
                Ok(_) => true,
            }
        }),
    decreases texts1.len(),
{
    let b = batch_admit_spec(entries, texts1, params, server_max, tip_address, minimum_tip, slots1,
        now_ms);
    let all_texts = texts1 + seq![t] + texts_rest;
    let all_slots = slots1 + slots_rest;
    let b2 = batch_admit_spec(entries, all_texts, params, server_max, tip_address, minimum_tip,
        all_slots, now_ms);
    if texts1.len() == 0 {
        assert(all_texts[0] == t);
        assert(b.1 == entries);
    } else {
        assert(all_texts[0] == texts1[0]);
        assert(all_slots[0] == slots1[0]);
        let a0 = admit_spec(entries, texts1[0], params, server_max, tip_address, minimum_tip);
        assert(a0 is Ok);
        let entries1 = entries.push(admitted_entry(a0->Ok_0, slots1[0], now_ms));
        assert(all_texts.drop_first() =~= texts1.drop_first() + seq![t] + texts_rest);
        assert(all_slots.drop_first() =~= slots1.drop_first() + slots_rest);
        lemma_batch_admit_fail(
            entries1,
            texts1.drop_first(),
            t,
            texts_rest,
            params,
            server_max,
            tip_address,
            minimum_tip,
            slots1.drop_first(),
            slots_rest,
            now_ms,
        );
    }
}

} // verus!
