//! The command values the shell hands over, and the dispatcher that
//! carries each one out against the registry, the entered vault's
//! metadata and the filesystem model.

use vstd::prelude::*;

use crate::config::Config;
use crate::enums::{ConfigType, Item, VaultItem};
use crate::fs_model::{Fs, FsAction};
use crate::output::{Error, Message};
use crate::paths::{string_eq, SysPath};
use crate::vaults::{lemma_consistent_update, Vaults};

verus! {

/// One parsed command, ready to be carried out.
#[derive(Debug)]
pub enum Command {
    /// Create a vault, or (without arguments) list the vaults.
    Vault { show_loc: bool, name: Option<String>, location: Option<SysPath> },
    /// Enter a vault.
    Enter { name: String },
    /// Create a note in the current folder.
    Note { name: String },
    /// Give a note an alias, or take its alias away.
    Alias { name: String, remove_alias: bool, maybe_alias: Option<String> },
    /// Open a note from the current folder in the editor.
    Open { name: String },
    /// Create a folder in the current folder.
    Folder { name: String },
    /// Reveal the current folder in the system's file manager.
    Opdir,
    /// Change folder within the current vault.
    Chdir { path: SysPath },
    /// Remove an item.
    Remove { item_type: Item, name: String },
    /// Rename an item.
    Rename { item_type: Item, name: String, new_name: String },
    /// Move an item to a new location.
    Move { item_type: Item, name: String, new_location: SysPath },
    /// Move a note or folder into another vault.
    Vmove { item_type: VaultItem, name: String, vault_name: String },
    /// List the current folder.
    List { item_type: Option<VaultItem> },
    /// Display or change a setting.
    Config { config_type: Option<ConfigType>, value: Option<String> },
    /// Show help; handled entirely by the shell.
    Help,
}

/// The parsed command line.
#[derive(Debug)]
pub struct Args {
    pub command: Command,
}

/// Paths inside a command carry no empty segments.
pub open spec fn command_wf(c: Command) -> bool {
    match c {
        Command::Vault { location, .. } => location matches Some(l) ==> l.wf(),
        Command::Chdir { path } => path.wf(),
        Command::Move { new_location, .. } => new_location.wf(),
        _ => true,
    }
}

/// The whole program state for one run: the parsed command, the
/// settings, every vault's registry entry and metadata, and the
/// filesystem model mirroring the directories the command may touch.
#[derive(Debug)]
pub struct App {
    args: Args,
    config: Config,
    vaults: Vaults,
    fs: Fs,
}

impl App {
    /// The held settings, for specification purposes.
    pub closed spec fn spec_config(self) -> Config {
        self.config
    }

    /// The held vaults, for specification purposes.
    pub closed spec fn spec_vaults(self) -> Vaults {
        self.vaults
    }

    /// The held filesystem model, for specification purposes.
    pub closed spec fn spec_fs(self) -> Fs {
        self.fs
    }

    /// Registry and metadata agree, the filesystem model is sound, and
    /// the command's paths are usable.
    pub closed spec fn wf(self) -> bool {
        &&& self.vaults.wf()
        &&& self.fs.wf()
        &&& command_wf(self.args.command)
    }

    /// Assemble the state the shell loaded.
    pub fn new(args: Args, config: Config, vaults: Vaults, fs: Fs) -> (r: App)
        requires
            vaults.wf(),
            fs.wf(),
            command_wf(args.command),
        ensures
            r.wf(),
            r.spec_config() == config,
            r.spec_vaults() == vaults,
            r.spec_fs() == fs,
    {
        App { args, config, vaults, fs }
    }

    /// The settings, read-only.
    pub fn config_ref(&self) -> (r: &Config)
        ensures
            *r == self.spec_config(),
    {
        &self.config
    }

    /// The vaults, read-only.
    pub fn vaults_ref(&self) -> (r: &Vaults)
        ensures
            *r == self.spec_vaults(),
    {
        &self.vaults
    }

    /// The filesystem model, read-only; its pending actions are what
    /// the shell must replay.
    pub fn fs_ref(&self) -> (r: &Fs)
        ensures
            *r == self.spec_fs(),
    {
        &self.fs
    }

    /// Forget the pending actions once the shell has replayed them.
    pub fn clear_actions(&mut self)
        requires
            old(self).wf(),
        ensures
            final(self).wf(),
            final(self).spec_fs()@ == old(self).spec_fs()@,
            final(self).spec_fs().actions() =~= Seq::<FsAction>::empty(),
            final(self).spec_vaults() == old(self).spec_vaults(),
            final(self).spec_config() == old(self).spec_config(),
    {
        self.fs.clear_actions();
    }

    /// Carry out the parsed command, and say what happened.
    pub fn handle_args(&mut self) -> (r: Result<Message, Error>)
        requires
            old(self).wf(),
        ensures
            final(self).wf(),
    {
        match &self.args.command {
            Command::Vault { show_loc: _, name, location } => {
                if let (Some(name), Some(location)) = (name, location) {
                    if let Err(e) = self.vaults.create_vault(name, location, &mut self.fs) {
                        return Err(e);
                    }
                    Ok(Message::ItemCreated(Item::Vault, name.clone()))
                } else {
                    // listing the vaults is display work, left to the shell
                    Ok(Message::Empty)
                }
            },
            Command::Enter { name } => {
                if let Err(e) = self.vaults.enter_vault(name) {
                    return Err(e);
                }
                Ok(Message::VaultEntered(name.clone()))
            },
            Command::Note { name } => {
                let current = match self.vaults.ref_current() {
                    Ok(v) => v,
                    Err(e) => {
                        return Err(e);
                    },
                };
                if let Err(e) = current.create_vault_item(VaultItem::Note, name, &mut self.fs) {
                    return Err(e);
                }
                Ok(Message::ItemCreated(Item::Note, name.clone()))
            },
            Command::Alias { name, remove_alias, maybe_alias } => {
                let ghost pre = self.vaults;
                let current = match self.vaults.mut_current() {
                    Ok(v) => v,
                    Err(e) => {
                        return Err(e);
                    },
                };
                if *remove_alias {
                    let outcome = current.remove_alias(name);
                    proof {
                        lemma_consistent_update(pre, self.vaults, *final(current));
                    }
                    match outcome {
                        Ok(_) => Ok(Message::Empty),
                        Err(e) => Err(e),
                    }
                } else if let Some(alias) = maybe_alias {
                    let outcome = current.set_alias(name, alias, &self.fs);
                    proof {
                        lemma_consistent_update(pre, self.vaults, *final(current));
                    }
                    match outcome {
                        Ok(_) => Ok(Message::Empty),
                        Err(e) => Err(e),
                    }
                } else {
                    proof {
                        lemma_consistent_update(pre, self.vaults, *final(current));
                    }
                    Ok(Message::Empty)
                }
            },
            Command::Open { name } => {
                let current = match self.vaults.ref_current() {
                    Ok(v) => v,
                    Err(e) => {
                        return Err(e);
                    },
                };
                if let Err(e) = current.open_note(name, &mut self.fs) {
                    return Err(e);
                }
                Ok(Message::Empty)
            },
            Command::Folder { name } => {
                let current = match self.vaults.ref_current() {
                    Ok(v) => v,
                    Err(e) => {
                        return Err(e);
                    },
                };
                if let Err(e) = current.create_vault_item(VaultItem::Folder, name, &mut self.fs) {
                    return Err(e);
                }
                Ok(Message::ItemCreated(Item::Folder, name.clone()))
            },
            Command::Opdir => {
                let current = match self.vaults.ref_current() {
                    Ok(v) => v,
                    Err(e) => {
                        return Err(e);
                    },
                };
                let _folder = current.open_folder(&mut self.fs);
                Ok(Message::Empty)
            },
            Command::Chdir { path } => {
                let ghost pre = self.vaults;
                let current = match self.vaults.mut_current() {
                    Ok(v) => v,
                    Err(e) => {
                        return Err(e);
                    },
                };
                let outcome = current.change_folder(path, &self.fs);
                proof {
                    lemma_consistent_update(pre, self.vaults, *final(current));
                }
                match outcome {
                    Ok(_) => Ok(Message::FolderChanged),
                    Err(e) => Err(e),
                }
            },
            Command::Remove { item_type, name } => {
                match item_type {
                    Item::Vault => {
                        if let Err(e) = self.vaults.remove_vault(name, &mut self.fs) {
                            return Err(e);
                        }
                    },
                    _ => {
                        let current = match self.vaults.ref_current() {
                            Ok(v) => v,
                            Err(e) => {
                                return Err(e);
                            },
                        };
                        if let Err(e) = current.remove_vault_item(
                            item_type.to_vault_item(),
                            name,
                            &mut self.fs,
                        ) {
                            return Err(e);
                        }
                    },
                }
                Ok(Message::ItemRemoved(*item_type, name.clone()))
            },
            Command::Rename { item_type, name, new_name } => {
                match item_type {
                    Item::Vault => {
                        if let Err(e) = self.vaults.rename_vault(name, new_name, &mut self.fs) {
                            return Err(e);
                        }
                    },
                    _ => {
                        let current = match self.vaults.ref_current() {
                            Ok(v) => v,
                            Err(e) => {
                                return Err(e);
                            },
                        };
                        if let Err(e) = current.rename_vault_item(
                            item_type.to_vault_item(),
                            name,
                            new_name,
                            &mut self.fs,
                        ) {
                            return Err(e);
                        }
                    },
                }
                Ok(Message::ItemRenamed(*item_type, name.clone(), new_name.clone()))
            },
            Command::Move { item_type, name, new_location } => {
                match item_type {
                    Item::Vault => {
                        if let Err(e) = self.vaults.move_vault(name, new_location, &mut self.fs) {
                            return Err(e);
                        }
                    },
                    _ => {
                        let current = match self.vaults.ref_current() {
                            Ok(v) => v,
                            Err(e) => {
                                return Err(e);
                            },
                        };
                        if let Err(e) = current.move_vault_item(
                            item_type.to_vault_item(),
                            name,
                            new_location,
                            &mut self.fs,
                        ) {
                            return Err(e);
                        }
                    },
                }
                Ok(Message::ItemMoved(*item_type, name.clone()))
            },
            Command::Vmove { item_type, name, vault_name } => {
                if let Err(e) = self.vaults.move_to_vault(item_type, name, vault_name, &mut self.fs)
                    {
                    return Err(e);
                }
                Ok(Message::ItemVMoved(*item_type, name.clone(), vault_name.clone()))
            },
            Command::List { item_type: _ } => {
                // the enumeration itself is read through `Vault::list`
                // by the shell, which also renders it
                if let Err(e) = self.vaults.ref_current() {
                    return Err(e);
                }
                Ok(Message::Empty)
            },
            Command::Config { config_type, value } => {
                let ct = match config_type {
                    Some(ct) => ct,
                    None => {
                        // opening the settings file in the editor is
                        // the shell's work
                        return Ok(Message::Empty);
                    },
                };
                match value {
                    Some(value) => {
                        if let ConfigType::Conflict = ct {
                            let truth: String = String::from_str("true");
                            let falsity: String = String::from_str("false");
                            if !string_eq(value, &truth) && !string_eq(value, &falsity) {
                                return Err(
                                    Error::Undefined(
                                        String::from_str("the value must be true or false"),
                                    ),
                                );
                            }
                        }
                        self.config.set_config(ct, value);
                        Ok(Message::ConfigSet(*ct, value.clone()))
                    },
                    None => {
                        let current_value = self.config.get_config(ct);
                        Ok(Message::Config(*ct, current_value))
                    },
                }
            },
            Command::Help => Ok(Message::Empty),
        }
    }
}

} // verus!
