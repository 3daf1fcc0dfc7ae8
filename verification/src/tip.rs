//! Tip policy: does a transaction carry a system-program transfer of at
//! least the configured minimum to the configured tip address?
//!
//! Only the static account-key table is consulted; keys resolved through
//! address lookup tables are ignored, which keeps the check cheap and free
//! of side effects. Instructions with an out-of-range program index and
//! instruction payloads that are not a well-formed system instruction are
//! silently skipped.

use vstd::prelude::*;
use crate::codec::TxView;

verus! {

/// The lamports of a system-program `Transfer` instruction, where the bytes
/// are the payload of one, and `None` otherwise.
pub uninterp spec fn system_transfer_parse(data: Seq<u8>) -> Option<u64>;

/// Relies on `bincode::deserialize` of the system interface crate's
/// instruction enum: the result depends on the bytes alone, and the body
/// only tells the `Transfer` variant apart from every other outcome.
#[verifier::external_body]
pub(crate) fn parse_system_transfer(data: &Vec<u8>) -> (r: Option<u64>)
    ensures
        r == system_transfer_parse(data@),
{
    match bincode::deserialize::<solana_system_interface::instruction::SystemInstruction>(
        data.as_slice(),
    ) {
        Ok(solana_system_interface::instruction::SystemInstruction::Transfer { lamports }) =>
            Some(lamports),
        _ => None,
    }
}

/// Whether a key is the system program's address: thirty-two zero bytes.
pub open spec fn is_system_program_key(key: Seq<u8>) -> bool {
    key.len() == 32 && forall|j: int| 0 <= j < key.len() ==> key[j] == 0u8
}

/// Whether instruction `i` of `tx` is a qualifying tip: a system-program
/// transfer of at least `minimum_tip` lamports whose recipient (the static
/// key at the instruction's second account index) is `tip_address`.
pub open spec fn qualifying_tip(tx: TxView, i: int, tip_address: Seq<u8>, minimum_tip: u64) -> bool {
    let ins = tx.instructions[i];
    &&& ins.program_id_index < tx.static_keys.len()
    &&& is_system_program_key(tx.static_keys[ins.program_id_index as int])
    &&& system_transfer_parse(ins.data) matches Some(lamports) && lamports >= minimum_tip
    &&& ins.accounts.len() >= 2
    &&& ins.accounts[1] < tx.static_keys.len()
    &&& tx.static_keys[ins.accounts[1] as int] == tip_address
}

/// Some instruction of `tx` is a qualifying tip to `addr`.
pub open spec fn pays_tip_to(tx: TxView, addr: Seq<u8>, minimum_tip: u64) -> bool {
    exists|i: int|
        0 <= i < tx.instructions.len() && #[trigger] qualifying_tip(tx, i, addr, minimum_tip)
}

/// The tip policy: with no tip address configured every transaction is
/// accepted; otherwise some instruction must be a qualifying tip.
pub open spec fn pays_tip(tx: TxView, tip_address: Option<Seq<u8>>, minimum_tip: u64) -> bool {
    match tip_address {
        None => true,
        Some(addr) => pays_tip_to(tx, addr, minimum_tip),
    }
}

/// A qualifying instruction witnesses the tip policy.
pub proof fn lemma_qualifying_pays(tx: TxView, i: int, addr: Seq<u8>, minimum_tip: u64)
    requires
        0 <= i < tx.instructions.len(),
        qualifying_tip(tx, i, addr, minimum_tip),
    ensures
        pays_tip(tx, Some(addr), minimum_tip),
{
    assert(pays_tip_to(tx, addr, minimum_tip));
}

/// With `tip_address` unset the tip policy accepts unconditionally.
pub proof fn lemma_unset_tip_address_accepts(tx: TxView, minimum_tip: u64)
    ensures
        pays_tip(tx, None, minimum_tip),
{
}

/// Byte-for-byte equality of two byte vectors.
pub fn bytes_eq(a: &Vec<u8>, b: &Vec<u8>) -> (r: bool)
    ensures
        r == (a@ == b@),
{
    if a.len() != b.len() {
        proof {
            assert(a@ != b@) by {
                if a@ == b@ {
                    assert(a@.len() == b@.len());
                }
            }
        }
        return false;
    }
    let n = a.len();
    for i in 0..n
        invariant
            n == a.len() == b.len(),
            forall|k: int| 0 <= k < i ==> a@[k] == b@[k],
    {
        if a[i] != b[i] {
            return false;
        }
    }
    proof {
        assert(a@ =~= b@);
    }
    true
}

/// Whether a key vector is the system program's address.
pub fn is_system_program(key: &Vec<u8>) -> (r: bool)
    ensures
        r == is_system_program_key(key@),
{
    if key.len() != 32 {
        return false;
    }
    let n = key.len();
    for i in 0..n
        invariant
            n == key.len() == 32,
            forall|k: int| 0 <= k < i ==> key@[k] == 0u8,
    {
        if key[i] != 0 {
            return false;
        }
    }
    true
}

} // verus!
