//! Transparent extensions of transactions: inputs and outputs that are guarded
//! by programs of an extension.

use vstd::prelude::*;
use crate::primitives::{Amount, TxId};

pub mod builder;

verus! {

/// The condition that guards an output: the extension that checks it, the
/// mode of the check, and what the check is given.
#[derive(Clone, Debug, PartialEq, Eq)]
pub struct Precondition {
    pub extension_id: u32,
    pub mode: u32,
    pub payload: Vec<u8>,
}

/// What satisfies a precondition: the extension, the mode, and the payload.
#[derive(Clone, Debug, PartialEq, Eq)]
pub struct Witness<Payload> {
    pub extension_id: u32,
    pub mode: u32,
    pub payload: Payload,
}

/// The payload of a witness that authorizes an input.
#[derive(Clone, Debug, PartialEq, Eq)]
pub struct AuthData(pub Vec<u8>);

/// What can be turned into a mode and a payload. The two are a function of
/// the value alone.
pub trait ToPayload {
    /// The mode and the payload of this value.
    spec fn payload_of(&self) -> (u32, Seq<u8>);

    fn to_payload(&self) -> (r: (u32, Vec<u8>))
        ensures
            (r.0, r.1@) == self.payload_of(),
    ;
}

impl ToPayload for Precondition {
    open spec fn payload_of(&self) -> (u32, Seq<u8>) {
        (self.mode, self.payload@)
    }

    fn to_payload(&self) -> (r: (u32, Vec<u8>)) {
        let mut payload: Vec<u8> = Vec::new();
        let mut i: usize = 0;
        while i < self.payload.len()
            invariant
                i <= self.payload.len(),
                payload@ == self.payload@.take(i as int),
            decreases self.payload.len() - i,
        {
            payload.push(self.payload[i]);
            assert(self.payload@.take(i + 1) =~= self.payload@.take(i as int).push(
                self.payload@[i as int],
            ));
            i += 1;
        }
        assert(self.payload@.take(i as int) =~= self.payload@);
        (self.mode, payload)
    }
}

impl ToPayload for Witness<AuthData> {
    open spec fn payload_of(&self) -> (u32, Seq<u8>) {
        (self.mode, self.payload.0@)
    }

    fn to_payload(&self) -> (r: (u32, Vec<u8>)) {
        let mut payload: Vec<u8> = Vec::new();
        let mut i: usize = 0;
        while i < self.payload.0.len()
            invariant
                i <= self.payload.0.len(),
                payload@ == self.payload.0@.take(i as int),
            decreases self.payload.0.len() - i,
        {
            payload.push(self.payload.0[i]);
            assert(self.payload.0@.take(i + 1) =~= self.payload.0@.take(i as int).push(
                self.payload.0@[i as int],
            ));
            i += 1;
        }
        assert(self.payload.0@.take(i as int) =~= self.payload.0@);
        (self.mode, payload)
    }
}

/// The output of an earlier transaction that an input spends.
#[derive(Clone, Copy, Debug, PartialEq, Eq)]
pub struct OutPoint {
    pub txid: TxId,
    pub n: u32,
}

impl OutPoint {
    pub fn new(txid: TxId, n: u32) -> (r: OutPoint)
        ensures
            r == (OutPoint { txid, n }),
    {
        OutPoint { txid, n }
    }
}

/// An input of the transparent-extension part of a transaction.
#[derive(Clone, Debug, PartialEq, Eq)]
pub struct TzeIn<Payload> {
    pub prevout: OutPoint,
    pub witness: Witness<Payload>,
}

impl TzeIn<()> {
    /// An input that is not yet authorized.
    pub fn new(prevout: OutPoint, extension_id: u32, mode: u32) -> (r: TzeIn<()>)
        ensures
            r == (TzeIn { prevout, witness: Witness { extension_id, mode, payload: () } }),
    {
        TzeIn { prevout, witness: Witness { extension_id, mode, payload: () } }
    }
}

/// An output of the transparent-extension part of a transaction.
#[derive(Clone, Debug, PartialEq, Eq)]
pub struct TzeOut {
    pub value: Amount,
    pub precondition: Precondition,
}

/// What a `TzeOut` holds, as mathematical values.
pub struct TzeOutView {
    pub value: int,
    pub extension_id: u32,
    pub mode: u32,
    pub payload: Seq<u8>,
}

impl View for TzeOut {
    type V = TzeOutView;

    open spec fn view(&self) -> TzeOutView {
        TzeOutView {
            value: self.value@,
            extension_id: self.precondition.extension_id,
            mode: self.precondition.mode,
            payload: self.precondition.payload@,
        }
    }
}

/// What an authorized input holds, as mathematical values.
pub struct AuthorizedInput {
    pub prevout: OutPoint,
    pub extension_id: u32,
    pub mode: u32,
    pub payload: Seq<u8>,
}

impl View for TzeIn<AuthData> {
    type V = AuthorizedInput;

    open spec fn view(&self) -> AuthorizedInput {
        AuthorizedInput {
            prevout: self.prevout,
            extension_id: self.witness.extension_id,
            mode: self.witness.mode,
            payload: self.witness.payload.0@,
        }
    }
}

/// How far the inputs of a bundle are authorized: the kind of their payload.
pub trait Authorization {
    type Witness;
}

/// The mark of a bundle whose inputs carry their witnesses.
#[derive(Clone, Copy, Debug, PartialEq, Eq)]
pub struct Authorized {}

impl Authorization for Authorized {
    type Witness = AuthData;
}

/// The transparent-extension part of a transaction.
pub struct Bundle<A: Authorization> {
    pub vin: Vec<TzeIn<A::Witness>>,
    pub vout: Vec<TzeOut>,
    pub authorization: A,
}

} // verus!
