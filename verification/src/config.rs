//! Session configuration and label bookkeeping, as plain data.
//!
//! Reading a configuration file and speaking to the store are the
//! surrounding program's business; the library only holds the values and
//! the one decision made per label.

use vstd::prelude::*;

verus! {

/// Everything a sync run needs to know.
#[derive(Clone, Debug)]
pub struct Config {
    pub imap: ImapConfig,
    pub store: StoreConfig,
}

/// How to reach the mailbox server.
#[derive(Clone, Debug)]
pub struct ImapConfig {
    pub server: String,
    pub account: String,
    pub password: String,
}

/// How to reach the durable store.
#[derive(Clone, Debug)]
pub struct StoreConfig {
    pub uri: String,
}

/// One mailbox label as the store keeps it, with the change version the
/// last sync reached — or none, when the label was never loaded.
#[derive(Clone, Debug)]
pub struct Label {
    pub id: i32,
    pub name: String,
    pub mod_seq: Option<i64>,
}

/// What to do with a label at session start.
#[derive(Clone, Copy, Debug, PartialEq, Eq, Structural)]
pub enum LabelAction {
    /// The label was synced before: fetch what changed since its version.
    Sync,
    /// The label was never loaded: fetch its messages from the start.
    Load,
}

/// Decides how a label is brought up to date: an incremental sync when a
/// change version was recorded, a full load otherwise.
pub fn label_action(label: &Label) -> (r: LabelAction)
    ensures
        r == (if label.mod_seq is Some {
            LabelAction::Sync
        } else {
            LabelAction::Load
        }),
{
    match label.mod_seq {
        Some(_) => LabelAction::Sync,
        None => LabelAction::Load,
    }
}

} // verus!
