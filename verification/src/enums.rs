//! The kinds of things the organizer works on.

use vstd::prelude::*;

verus! {

/// Anything that can be addressed by a command: a whole vault, a note,
/// or a folder inside a vault.
#[derive(Debug, Clone, Copy, PartialEq, Eq, Structural)]
pub enum Item {
    Vault,
    Note,
    Folder,
}

/// The things that live inside a vault.
#[derive(Debug, Clone, Copy, PartialEq, Eq, Structural)]
pub enum VaultItem {
    Note,
    Folder,
}

/// The settings a user can read or change.
#[derive(Debug, Clone, Copy, PartialEq, Eq, Structural)]
pub enum ConfigType {
    Editor,
    Conflict,
}

impl Item {
    /// On the filesystem, a note is a file; everything else is a directory.
    pub open spec fn is_dir(self) -> bool {
        !(self is Note)
    }

    /// Narrow to the vault-scoped kind; a vault is handled as a folder.
    pub fn to_vault_item(&self) -> (r: VaultItem)
        ensures
            r == (if *self is Note {
                VaultItem::Note
            } else {
                VaultItem::Folder
            }),
    {
        match self {
            Item::Note => VaultItem::Note,
            Item::Vault => VaultItem::Folder,
            Item::Folder => VaultItem::Folder,
        }
    }

    /// The word used for the item as a filesystem entry.
    pub fn fs_name(&self) -> (r: String)
        ensures
            *self is Note ==> r@ == "note"@,
            !(*self is Note) ==> r@ == "folder"@,
    {
        self.to_vault_item().full()
    }

    /// The item's full name, for messages.
    pub fn full(&self) -> (r: String)
        ensures
            *self is Vault ==> r@ == "vault"@,
            *self is Note ==> r@ == "note"@,
            *self is Folder ==> r@ == "folder"@,
    {
        match self {
            Item::Vault => String::from_str("vault"),
            Item::Note => String::from_str("note"),
            Item::Folder => String::from_str("folder"),
        }
    }
}

impl VaultItem {
    /// The shared kind this vault-scoped kind stands for.
    pub open spec fn as_item(self) -> Item {
        if self is Note {
            Item::Note
        } else {
            Item::Folder
        }
    }

    /// Widen back to the shared kind.
    pub fn to_item(&self) -> (r: Item)
        ensures
            r == self.as_item(),
    {
        match self {
            VaultItem::Note => Item::Note,
            VaultItem::Folder => Item::Folder,
        }
    }

    /// The item's full name, for messages.
    pub fn full(&self) -> (r: String)
        ensures
            *self is Note ==> r@ == "note"@,
            *self is Folder ==> r@ == "folder"@,
    {
        match self {
            VaultItem::Note => String::from_str("note"),
            VaultItem::Folder => String::from_str("folder"),
        }
    }
}

impl ConfigType {
    /// The setting's name, for messages.
    pub fn to_str(&self) -> (r: &'static str)
        ensures
            *self is Editor ==> r@ == "editor"@,
            *self is Conflict ==> r@ == "conflict"@,
    {
        match self {
            ConfigType::Editor => "editor",
            ConfigType::Conflict => "conflict",
        }
    }
}

} // verus!
