//! Transactions: the five kinds, the canonical signing encoding (every
//! field except the signature and computation proof), signing and
//! verification, and the transaction hash.

use vstd::prelude::*;
use crate::errors::StateError;
use crate::account::AccountId;
use crate::algebra::{Fe, Ge, fe_wf, ge_wf, copy_bytes};
use crate::hash::{sha3_256_bytes, spec_h2f256, mask_top_bit};
use crate::signature::{Signature, SignatureScheme, spec_sign_r, spec_sign_s, spec_verifies};
use crate::algebra::{fe_from_le_bytes, gen_mul};
use crate::wire::{spec_enc_bytes, spec_enc_u64, append_bytes, append_u64};

verus! {

/// The transaction kinds.
#[derive(Clone, Debug, PartialEq, Eq)]
pub enum TransactionType {
    /// Transfer tokens.
    Transfer,
    /// Deploy a contract.
    Deploy,
    /// Call a contract.
    Call,
    /// Create an account.
    CreateAccount,
    /// Update an account.
    UpdateAccount,
}

/// The byte a transaction kind encodes to.
pub open spec fn spec_tx_type_byte(t: TransactionType) -> u8 {
    match t {
        TransactionType::Transfer => 0u8,
        TransactionType::Deploy => 1u8,
        TransactionType::Call => 2u8,
        TransactionType::CreateAccount => 3u8,
        TransactionType::UpdateAccount => 4u8,
    }
}

/// Mathematical model of a transaction.
pub struct TransactionV {
    pub tx_type: TransactionType,
    pub nonce: u64,
    pub from: Seq<u8>,
    pub to: Option<Seq<u8>>,
    pub value: u64,
    pub gas_price: u64,
    pub gas_limit: u64,
    pub data: Seq<u8>,
    pub signature: Option<(Seq<u8>, Seq<u8>)>,
    pub computation_proof: Option<Seq<u8>>,
}

/// The canonical signing encoding: every field except the signature and
/// the computation proof.
pub open spec fn spec_tx_signing_bytes(t: TransactionV) -> Seq<u8> {
    seq![spec_tx_type_byte(t.tx_type)] + spec_enc_u64(t.nonce) + spec_enc_bytes(t.from) + (match t
        .to {
        Some(to) => seq![1u8] + spec_enc_bytes(to),
        None => seq![0u8],
    }) + spec_enc_u64(t.value) + spec_enc_u64(t.gas_price) + spec_enc_u64(t.gas_limit)
        + spec_enc_bytes(t.data)
}

/// The transaction hash: the field digest (first 255 digest bits) of the
/// signing encoding.
pub open spec fn spec_tx_hash(t: TransactionV) -> Seq<u8> {
    spec_h2f256(spec_tx_signing_bytes(t))
}

/// A transaction.
#[derive(Clone, Debug)]
pub struct Transaction {
    /// Transaction kind.
    pub tx_type: TransactionType,
    /// Sender nonce; must equal the sender account's nonce exactly.
    pub nonce: u64,
    /// Sender account.
    pub from: AccountId,
    /// Receiver account, where the kind takes one.
    pub to: Option<AccountId>,
    /// Transferred value.
    pub value: u64,
    /// Gas price (zero-fee structure).
    pub gas_price: u64,
    /// Gas limit (zero-fee structure).
    pub gas_limit: u64,
    /// Kind-specific payload.
    pub data: Vec<u8>,
    /// Signature over the signing encoding.
    pub signature: Option<Signature>,
    /// Proof of off-chain computation; checked for non-emptiness here.
    pub computation_proof: Option<Vec<u8>>,
}

impl View for Transaction {
    type V = TransactionV;

    open spec fn view(&self) -> TransactionV {
        TransactionV {
            tx_type: self.tx_type,
            nonce: self.nonce,
            from: self.from@,
            to: match self.to {
                Some(ref t) => Some(t@),
                None => None,
            },
            value: self.value,
            gas_price: self.gas_price,
            gas_limit: self.gas_limit,
            data: self.data@,
            signature: match self.signature {
                Some(ref s) => Some((s.r@, s.s@)),
                None => None,
            },
            computation_proof: match self.computation_proof {
                Some(ref p) => Some(p@),
                None => None,
            },
        }
    }
}

impl Transaction {
    /// Well-formedness: a present signature holds canonical encodings.
    pub open spec fn wf(&self) -> bool {
        self.signature matches Some(s) ==> s.wf()
    }

    /// A fresh unsigned transaction with the zero-fee gas fields.
    pub fn new(
        tx_type: TransactionType,
        from: AccountId,
        to: Option<AccountId>,
        value: u64,
        nonce: u64,
        data: Vec<u8>,
    ) -> (r: Transaction)
        ensures
            r@.tx_type == tx_type,
            r@.from == from@,
            r@.to == (match to {
                Some(ref t) => Some(t@),
                None => None::<Seq<u8>>,
            }),
            r@.value == value,
            r@.nonce == nonce,
            r@.gas_price == 0,
            r@.gas_limit == 0,
            r@.data == data@,
            r@.signature is None,
            r@.computation_proof is None,
            r.wf(),
    {
        Transaction {
            tx_type,
            nonce,
            from,
            to,
            value,
            gas_price: 0,
            gas_limit: 0,
            data,
            signature: None,
            computation_proof: None,
        }
    }

    /// The canonical signing encoding; never fails.
    pub fn encode_for_signing(&self) -> (r: Result<Vec<u8>, StateError>)
        ensures
            r matches Ok(b) && b@ == spec_tx_signing_bytes(self@),
    {
        let mut out: Vec<u8> = Vec::new();
        let type_byte: u8 = match self.tx_type {
            TransactionType::Transfer => 0u8,
            TransactionType::Deploy => 1u8,
            TransactionType::Call => 2u8,
            TransactionType::CreateAccount => 3u8,
            TransactionType::UpdateAccount => 4u8,
        };
        out.push(type_byte);
        append_u64(&mut out, self.nonce);
        append_bytes(&mut out, &self.from.0);
        match &self.to {
            Some(to) => {
                out.push(1u8);
                append_bytes(&mut out, &to.0);
            },
            None => {
                out.push(0u8);
            },
        }
        append_u64(&mut out, self.value);
        append_u64(&mut out, self.gas_price);
        append_u64(&mut out, self.gas_limit);
        append_bytes(&mut out, &self.data);
        proof {
            assert(out@ =~= spec_tx_signing_bytes(self@));
        }
        Ok(out)
    }

    /// Signs the transaction: afterwards it carries the deterministic
    /// signature of its signing encoding under `private_key`, every other
    /// field unchanged; never fails.
    pub fn sign(&mut self, signature_scheme: &SignatureScheme, private_key: &Fe) -> (r: Result<
        (),
        StateError,
    >)
        ensures
            r is Ok,
            final(self)@.signature matches Some(s) && s.0 == spec_sign_r(
                private_key@,
                spec_tx_signing_bytes(old(self)@),
            ) && s.1 == spec_sign_s(private_key@, spec_tx_signing_bytes(old(self)@)),
            spec_verifies(
                spec_tx_signing_bytes(old(self)@),
                final(self)@.signature->Some_0.0,
                final(self)@.signature->Some_0.1,
                gen_mul(private_key@),
            ),
            final(self).wf(),
            final(self)@.tx_type == old(self)@.tx_type,
            final(self)@.nonce == old(self)@.nonce,
            final(self)@.from == old(self)@.from,
            final(self)@.to == old(self)@.to,
            final(self)@.value == old(self)@.value,
            final(self)@.gas_price == old(self)@.gas_price,
            final(self)@.gas_limit == old(self)@.gas_limit,
            final(self)@.data == old(self)@.data,
            final(self)@.computation_proof == old(self)@.computation_proof,
            spec_tx_signing_bytes(final(self)@) == spec_tx_signing_bytes(old(self)@),
    {
        let message = match self.encode_for_signing() {
            Ok(m) => m,
            Err(e) => { return Err(e); },
        };
        let signature = match signature_scheme.sign(message.as_slice(), private_key) {
            Ok(s) => s,
            Err(_) => {
                return Err(StateError::ValidationError("signing failed".to_string()));
            },
        };
        self.signature = Some(signature);
        proof {
            assert(spec_tx_signing_bytes(self@) == spec_tx_signing_bytes(old(self)@));
        }
        Ok(())
    }

    /// Verifies the signature against a public key: errors exactly when no
    /// signature is present; otherwise reports whether the verification
    /// equation holds over the signing encoding.
    pub fn verify_signature(&self, public_key: &Ge) -> (r: Result<bool, StateError>)
        requires
            self.wf(),
            ge_wf(public_key@),
        ensures
            r is Ok <==> self@.signature is Some,
            r matches Ok(b) ==> b == spec_verifies(
                spec_tx_signing_bytes(self@),
                self@.signature->Some_0.0,
                self@.signature->Some_0.1,
                public_key@,
            ),
    {
        let signature = match &self.signature {
            Some(s) => s,
            None => {
                return Err(StateError::ValidationError("Missing signature".to_string()));
            },
        };
        let message = match self.encode_for_signing() {
            Ok(m) => m,
            Err(e) => { return Err(e); },
        };
        let scheme = match SignatureScheme::new(128) {
            Ok(s) => s,
            Err(_) => {
                return Err(StateError::ValidationError("scheme init failed".to_string()));
            },
        };
        match scheme.verify(message.as_slice(), signature, public_key) {
            Ok(b) => Ok(b),
            Err(_) => Err(StateError::ValidationError("verification failed".to_string())),
        }
    }

    /// Attaches a proof of computation.
    pub fn add_computation_proof(&mut self, proof: Vec<u8>)
        ensures
            final(self)@ == (TransactionV { computation_proof: Some(proof@), ..old(self)@ }),
    {
        self.computation_proof = Some(proof);
    }

    /// Checks the computation proof: errors exactly when none is attached;
    /// otherwise accepts exactly the non-empty proofs. (Full verification
    /// of off-chain execution is delegated; non-emptiness stands in for it
    /// here.)
    pub fn verify_computation(&self) -> (r: Result<bool, StateError>)
        ensures
            r is Ok <==> self@.computation_proof is Some,
            r matches Ok(b) ==> b == (self@.computation_proof->Some_0.len() != 0),
    {
        match &self.computation_proof {
            Some(p) => Ok(p.len() != 0),
            None => Err(StateError::ValidationError("Missing computation proof".to_string())),
        }
    }

    /// The transaction hash: the field digest of the signing encoding;
    /// never fails.
    pub fn hash(&self) -> (r: Result<Fe, StateError>)
        ensures
            r matches Ok(h) && h@ == spec_tx_hash(self@) && fe_wf(h@),
    {
        let encoded = match self.encode_for_signing() {
            Ok(m) => m,
            Err(e) => { return Err(e); },
        };
        let mut digest = sha3_256_bytes(encoded.as_slice());
        mask_top_bit(&mut digest);
        Ok(fe_from_le_bytes(&digest))
    }
}

/// A log entry produced by a contract call.
#[derive(Clone, Debug)]
pub struct Log {
    /// Contract address.
    pub address: AccountId,
    /// Topics.
    pub topics: Vec<Fe>,
    /// Payload.
    pub data: Vec<u8>,
}

/// A transaction receipt.
#[derive(Clone, Debug)]
pub struct TransactionReceipt {
    /// Transaction hash.
    pub hash: Fe,
    /// Block number the transaction was included in.
    pub block_number: u64,
    /// Index within the block.
    pub tx_index: u32,
    /// Computation used.
    pub computation_used: u64,
    /// 1 for success, 0 for failure.
    pub status: u8,
    /// Logs produced.
    pub logs: Vec<Log>,
    /// New per-account state roots.
    pub state_changes: Vec<(AccountId, Fe)>,
}

} // verus!
