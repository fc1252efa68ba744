//! What an operation reports back: an error, or a message to display.

use vstd::prelude::*;

use crate::enums::{ConfigType, Item, VaultItem};

verus! {

/// Everything that can go wrong in an operation. `Undefined` carries a
/// short description of a failure no other variant fits.
#[derive(Debug)]
pub enum Error {
    InvalidName,
    SameName,
    SameLocation,
    PathNotFound,
    PathNotAbsolute,
    ItemAlreadyExists(Item, String),
    ItemNotFound(Item, String),
    VaultAlreadyExists(String),
    VaultNotFound(String),
    NotInsideVault,
    AlreadyInVault(String),
    OutOfBounds,
    EditorNotFound,
    AliasNotFound,
    MoveError(String),
    Undefined(String),
}

/// What a successful command reports.
#[derive(Debug)]
pub enum Message {
    VaultEntered(String),
    ItemCreated(Item, String),
    ItemRemoved(Item, String),
    ItemRenamed(Item, String, String),
    ItemMoved(Item, String),
    ItemVMoved(VaultItem, String, String),
    FolderChanged,
    Config(ConfigType, String),
    ConfigSet(ConfigType, String),
    Empty,
}

/// The outcome of one command, ready for display.
#[derive(Debug)]
pub enum Output {
    Message(Message),
    Error(Error),
}

} // verus!
