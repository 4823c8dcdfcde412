//! The records the pipeline consumes and produces: typed transfer events from
//! the extractor, per-block ledger deltas, and the entity mutations handed to
//! the downstream sink.  Each executable type has a ghost view over `Seq` and
//! `int`, which the contracts speak of.

use vstd::prelude::*;

verus! {

/// The kind of logical record a mutation targets in the sink.
#[derive(Clone, Copy, PartialEq, Eq, Structural, Debug)]
pub enum EntityType {
    Wallet,
    Token,
    WhaleTransfer,
}

/// What a mutation (or a ledger delta) does to its target.
#[derive(Clone, Copy, PartialEq, Eq, Structural, Debug)]
pub enum Operation {
    Create,
    Update,
    Delete,
}

/// One decoded token transfer, as the extractor hands it over: already
/// normalized, with the amount as a decimal string since it can exceed the
/// 64-bit range.
#[derive(PartialEq, Eq, Debug)]
pub struct TransferRecord {
    /// Transaction hash, canonically hex encoded.
    pub tx_hash: String,
    /// In-block log ordinal; unique and increasing within a block.
    pub log_index: u64,
    pub block_number: u64,
    /// Block timestamp in seconds.
    pub block_time: u64,
    /// Sender address, canonically encoded.
    pub from: String,
    /// Recipient address, canonically encoded.
    pub to: String,
    /// Non-negative amount as a decimal string.
    pub amount: String,
}

pub ghost struct TransferV {
    pub tx_hash: Seq<char>,
    pub log_index: int,
    pub block_number: int,
    pub block_time: int,
    pub from: Seq<char>,
    pub to: Seq<char>,
    pub amount: Seq<char>,
}

impl View for TransferRecord {
    type V = TransferV;

    open spec fn view(&self) -> TransferV {
        TransferV {
            tx_hash: self.tx_hash@,
            log_index: self.log_index as int,
            block_number: self.block_number as int,
            block_time: self.block_time as int,
            from: self.from@,
            to: self.to@,
            amount: self.amount@,
        }
    }
}

impl DeepView for TransferRecord {
    type V = TransferV;

    open spec fn deep_view(&self) -> TransferV {
        self.view()
    }
}

impl Clone for TransferRecord {
    fn clone(&self) -> (r: Self)
        ensures
            r == *self,
    {
        TransferRecord {
            tx_hash: self.tx_hash.clone(),
            log_index: self.log_index,
            block_number: self.block_number,
            block_time: self.block_time,
            from: self.from.clone(),
            to: self.to.clone(),
            amount: self.amount.clone(),
        }
    }
}

/// The before/after pair the ledger yields for one touched address after a
/// block: ephemeral input to the reconciler.
#[derive(PartialEq, Eq, Debug)]
pub struct LedgerDelta {
    /// The touched address, canonically encoded.
    pub address: String,
    /// Balance before the block, as a decimal string.
    pub old_value: String,
    /// Balance after the block, as a decimal string.
    pub new_value: String,
    /// Block-local ordinal assigned by the ledger in first-touch order.
    pub ordinal: u64,
    pub op: Operation,
}

pub ghost struct DeltaV {
    pub address: Seq<char>,
    pub old_value: Seq<char>,
    pub new_value: Seq<char>,
    pub ordinal: int,
    pub op: Operation,
}

impl View for LedgerDelta {
    type V = DeltaV;

    open spec fn view(&self) -> DeltaV {
        DeltaV {
            address: self.address@,
            old_value: self.old_value@,
            new_value: self.new_value@,
            ordinal: self.ordinal as int,
            op: self.op,
        }
    }
}

impl DeepView for LedgerDelta {
    type V = DeltaV;

    open spec fn deep_view(&self) -> DeltaV {
        self.view()
    }
}

/// One named field of an entity mutation; field order is significant for the
/// sink's replay determinism.
#[derive(PartialEq, Eq, Debug)]
pub struct FieldValue {
    pub name: String,
    pub value: String,
}

impl View for FieldValue {
    type V = (Seq<char>, Seq<char>);

    open spec fn view(&self) -> (Seq<char>, Seq<char>) {
        (self.name@, self.value@)
    }
}

impl DeepView for FieldValue {
    type V = (Seq<char>, Seq<char>);

    open spec fn deep_view(&self) -> (Seq<char>, Seq<char>) {
        self.view()
    }
}

/// A create/update instruction for one logical record in the downstream sink.
#[derive(PartialEq, Eq, Debug)]
pub struct EntityMutation {
    pub entity: EntityType,
    pub id: String,
    pub ordinal: u64,
    pub op: Operation,
    pub fields: Vec<FieldValue>,
}

pub ghost struct MutationV {
    pub entity: EntityType,
    pub id: Seq<char>,
    pub ordinal: int,
    pub op: Operation,
    pub fields: Seq<(Seq<char>, Seq<char>)>,
}

impl View for EntityMutation {
    type V = MutationV;

    open spec fn view(&self) -> MutationV {
        MutationV {
            entity: self.entity,
            id: self.id@,
            ordinal: self.ordinal as int,
            op: self.op,
            fields: self.fields.deep_view(),
        }
    }
}

impl DeepView for EntityMutation {
    type V = MutationV;

    open spec fn deep_view(&self) -> MutationV {
        self.view()
    }
}

} // verus!
