//! Vault lifecycle: creating, removing, renaming, moving and entering
//! vaults, keeping the registry, each vault's metadata and the
//! filesystem in step with one another.

use vstd::prelude::*;

use crate::data::{has_key, key_at, loc_of, Data};
use crate::enums::{Item, VaultItem};
use crate::fs_model::Fs;
use crate::item_store;
use crate::item_store::{
    create_ok_post, fs_unchanged, item_target, move_err_post, move_ok_post, remove_err_post,
    remove_ok_post, rename_err_post, rename_ok_post,
};
use crate::output::Error;
use crate::paths::{
    item_name_ok, norm_segs, process_path, segs_normal, string_eq, PathModel, SysPath,
};
use crate::vault::{Vault, VaultModel};

verus! {

/// Registry and metadata tell the same story: one metadata record per
/// registered vault, in the registry's order, carrying exactly the
/// registered name and location.
pub open spec fn vaults_consistent(data: Data, metas: Seq<Vault>) -> bool {
    &&& data.wf()
    &&& metas.len() == data@.vaults.len()
    &&& forall|i: int|
        0 <= i < metas.len() ==> (#[trigger] metas[i]).wf() && metas[i].ready()
            && metas[i]@.name == Some(data@.vaults[i].0) && metas[i]@.location == Some(
            data@.vaults[i].1,
        )
}

/// All known vaults: the registry plus each vault's metadata.
#[derive(Debug)]
pub struct Vaults {
    data: Data,
    metas: Vec<Vault>,
}

impl Vaults {
    /// The registry, for specification purposes.
    pub closed spec fn spec_data(self) -> Data {
        self.data
    }

    /// The metadata records, for specification purposes.
    pub closed spec fn spec_metas(self) -> Seq<Vault> {
        self.metas@
    }

    /// Registry and metadata agree.
    pub open spec fn wf(self) -> bool {
        vaults_consistent(self.spec_data(), self.spec_metas())
    }

    /// The position of the entered vault.
    pub open spec fn current_index(self) -> int
        recommends
            self.spec_data()@.current is Some,
    {
        key_at(self.spec_data()@.vaults, self.spec_data()@.current.unwrap())
    }

    /// The entered vault's metadata.
    pub open spec fn current_meta(self) -> Vault
        recommends
            self.spec_data()@.current is Some,
    {
        self.spec_metas()[self.current_index()]
    }

    /// Assemble from a loaded registry and matching metadata records.
    pub fn new(data: Data, metas: Vec<Vault>) -> (r: Vaults)
        requires
            vaults_consistent(data, metas@),
        ensures
            r.wf(),
            r.spec_data() == data,
            r.spec_metas() == metas@,
    {
        Vaults { data, metas }
    }

    /// The registry, read-only.
    pub fn registry(&self) -> (r: &Data)
        ensures
            *r == self.spec_data(),
    {
        &self.data
    }

    /// The named vault's metadata, if the vault is registered.
    pub fn find_meta(&self, name: &String) -> (r: Option<&Vault>)
        requires
            self.wf(),
        ensures
            match r {
                Some(m) => has_key(self.spec_data()@.vaults, name@) && *m == self.spec_metas()[
                    key_at(self.spec_data()@.vaults, name@)
                ],
                None => !has_key(self.spec_data()@.vaults, name@),
            },
    {
        match self.data.index_of(name) {
            Some(i) => Some(&self.metas[i]),
            None => None,
        }
    }

    /// The entered vault's metadata, or the report that none is entered.
    pub fn ref_current(&self) -> (r: Result<&Vault, Error>)
        requires
            self.wf(),
        ensures
            match r {
                Ok(v) => self.spec_data()@.current is Some && *v == self.current_meta(),
                Err(e) => e is NotInsideVault && self.spec_data()@.current is None,
            },
    {
        let name = match self.data.get_current_vault() {
            Some(n) => n,
            None => {
                return Err(Error::NotInsideVault);
            },
        };
        match self.data.index_of(name) {
            Some(i) => Ok(&self.metas[i]),
            None => {
                proof {
                    assert(false);
                }
                Err(Error::NotInsideVault)
            },
        }
    }

    /// The entered vault's metadata for changing, or the report that
    /// none is entered.
    pub fn mut_current(&mut self) -> (r: Result<&mut Vault, Error>)
        requires
            old(self).wf(),
        ensures
            match r {
                Ok(v) => {
                    &&& old(self).spec_data()@.current is Some
                    &&& *v == old(self).current_meta()
                    &&& final(self).spec_data() == old(self).spec_data()
                    &&& final(self).spec_metas() == old(self).spec_metas().update(
                        old(self).current_index(),
                        *final(v),
                    )
                },
                Err(e) => {
                    &&& e is NotInsideVault
                    &&& old(self).spec_data()@.current is None
                    &&& *final(self) == *old(self)
                },
            },
    {
        let name = match self.data.get_current_vault() {
            Some(n) => n.clone(),
            None => {
                return Err(Error::NotInsideVault);
            },
        };
        match self.data.index_of(&name) {
            Some(i) => Ok(&mut self.metas[i]),
            None => {
                proof {
                    assert(false);
                }
                Err(Error::NotInsideVault)
            },
        }
    }

    /// Create a vault: register the name and make its directory under
    /// the given absolute location, with fresh metadata carrying both.
    pub fn create_vault(&mut self, name: &String, location: &SysPath, fs: &mut Fs) -> (r: Result<
        (),
        Error,
    >)
        requires
            old(self).wf(),
            old(fs).wf(),
            location.wf(),
        ensures
            final(self).wf(),
            final(fs).wf(),
            ({
                let norm = PathModel { abs: location@.abs, segs: norm_segs(location@.segs) };
                match r {
                    Ok(_) => {
                        &&& !has_key(old(self).spec_data()@.vaults, name@)
                        &&& location@.abs
                        &&& create_ok_post(*old(fs), *final(fs), Item::Vault, name@, norm)
                        &&& final(self).spec_data()@.vaults =~= old(
                            self,
                        ).spec_data()@.vaults.push((name@, norm))
                        &&& final(self).spec_data()@.current == old(self).spec_data()@.current
                        &&& final(self).spec_metas().len() == old(self).spec_metas().len() + 1
                        &&& forall|i: int|
                            0 <= i < old(self).spec_metas().len()
                                ==> #[trigger] final(self).spec_metas()[i] == old(
                                self,
                            ).spec_metas()[i]
                        &&& final(self).spec_metas().last()@.name == Some(name@)
                        &&& final(self).spec_metas().last()@.location == Some(norm)
                        &&& final(self).spec_metas().last()@.folder.segs.len() == 0
                        &&& final(self).spec_metas().last()@.aliases.len() == 0
                    },
                    Err(e) => {
                        &&& *final(self) == *old(self)
                        &&& fs_unchanged(*old(fs), *final(fs))
                        &&& match e {
                            Error::VaultAlreadyExists(n) => has_key(
                                old(self).spec_data()@.vaults,
                                name@,
                            ) && n@ == name@,
                            Error::PathNotAbsolute => !has_key(
                                old(self).spec_data()@.vaults,
                                name@,
                            ) && !location@.abs,
                            Error::PathNotFound => !has_key(old(self).spec_data()@.vaults, name@)
                                && location@.abs && norm.segs.len() > 0 && !(old(
                                fs,
                            )@.dom().contains(norm.segs) && old(fs)@[norm.segs]),
                            Error::InvalidName => !has_key(old(self).spec_data()@.vaults, name@)
                                && location@.abs && !item_name_ok(name@),
                            Error::ItemAlreadyExists(k, n) => !has_key(
                                old(self).spec_data()@.vaults,
                                name@,
                            ) && location@.abs && item_name_ok(name@) && old(fs)@.dom().contains(
                                item_target(Item::Vault, name@, norm),
                            ) && k is Vault && n@ == name@,
                            _ => false,
                        }
                    },
                }
            }),
    {
        if self.data.vault_exists(name) {
            return Err(Error::VaultAlreadyExists(name.clone()));
        }
        if !location.is_absolute() {
            return Err(Error::PathNotAbsolute);
        }
        let loc = process_path(location);
        proof {
            crate::paths::lemma_norm_segs_normal(location@.segs);
        }
        if loc.seg_count() > 0 && !fs.is_dir(&loc) {
            return Err(Error::PathNotFound);
        }
        if let Err(e) = item_store::create_item(fs, Item::Vault, name, &loc) {
            return Err(e);
        }
        let mut meta = Vault::default();
        meta.set_name(name.clone());
        meta.set_location(loc.clone());
        self.data.add_vault(name.clone(), loc);
        self.metas.push(meta);
        proof {
            assert forall|i: int|
                0 <= i < self.spec_metas().len() implies (#[trigger] self.spec_metas()[i]).wf()
                    && self.spec_metas()[i].ready() && self.spec_metas()[i]@.name == Some(
                    self.spec_data()@.vaults[i].0,
                ) && self.spec_metas()[i]@.location == Some(self.spec_data()@.vaults[i].1) by {
                if i < self.spec_metas().len() - 1 {
                    assert(self.spec_metas()[i] == old(self).spec_metas()[i]);
                    assert(self.spec_data()@.vaults[i] == old(self).spec_data()@.vaults[i]);
                }
            }
        }
        Ok(())
    }

    /// Delete the vault's directory with everything in it and drop it
    /// from the registry; leaves it if it was the entered one.
    pub fn remove_vault(&mut self, name: &String, fs: &mut Fs) -> (r: Result<(), Error>)
        requires
            old(self).wf(),
            old(fs).wf(),
        ensures
            final(self).wf(),
            final(fs).wf(),
            ({
                let vaults0 = old(self).spec_data()@.vaults;
                match r {
                    Ok(_) => {
                        &&& has_key(vaults0, name@)
                        &&& remove_ok_post(
                            *old(fs),
                            *final(fs),
                            Item::Vault,
                            name@,
                            loc_of(vaults0, name@),
                        )
                        &&& final(self).spec_data()@.vaults =~= vaults0.remove(
                            key_at(vaults0, name@),
                        )
                        &&& final(self).spec_metas() =~= old(self).spec_metas().remove(
                            key_at(vaults0, name@),
                        )
                        &&& final(self).spec_data()@.current == (if old(self).spec_data()@.current
                            == Some(name@) {
                            None::<Seq<char>>
                        } else {
                            old(self).spec_data()@.current
                        })
                    },
                    Err(e) => {
                        &&& *final(self) == *old(self)
                        &&& match e {
                            Error::VaultNotFound(n) => !has_key(vaults0, name@) && n@ == name@
                                && fs_unchanged(*old(fs), *final(fs)),
                            _ => has_key(vaults0, name@) && remove_err_post(
                                *old(fs),
                                *final(fs),
                                e,
                                Item::Vault,
                                name@,
                                loc_of(vaults0, name@),
                            ),
                        }
                    },
                }
            }),
    {
        let idx = match self.data.index_of(name) {
            Some(i) => i,
            None => {
                return Err(Error::VaultNotFound(name.clone()));
            },
        };
        let loc = self.metas[idx].get_location().clone();
        proof {
            assert(loc@ == loc_of(self.spec_data()@.vaults, name@));
        }
        if let Err(e) = item_store::remove_item(fs, Item::Vault, name, &loc) {
            return Err(e);
        }
        self.data.remove_vault(name);
        self.metas.remove(idx);
        proof {
            let vaults0 = old(self).spec_data()@.vaults;
            assert(self.spec_metas() =~= old(self).spec_metas().remove(idx as int));
            assert forall|i: int|
                0 <= i < self.spec_metas().len() implies (#[trigger] self.spec_metas()[i]).wf()
                    && self.spec_metas()[i].ready() && self.spec_metas()[i]@.name == Some(
                    self.spec_data()@.vaults[i].0,
                ) && self.spec_metas()[i]@.location == Some(self.spec_data()@.vaults[i].1) by {
                if i < idx {
                    assert(self.spec_metas()[i] == old(self).spec_metas()[i]);
                    assert(self.spec_data()@.vaults[i] == vaults0[i]);
                } else {
                    assert(self.spec_metas()[i] == old(self).spec_metas()[i + 1]);
                    assert(self.spec_data()@.vaults[i] == vaults0[i + 1]);
                }
            }
        }
        Ok(())
    }

    /// Rename the vault: its directory, its metadata's own name, the
    /// registry entry, and the entered-vault pointer if it was entered.
    pub fn rename_vault(&mut self, name: &String, new_name: &String, fs: &mut Fs) -> (r: Result<
        (),
        Error,
    >)
        requires
            old(self).wf(),
            old(fs).wf(),
        ensures
            final(self).wf(),
            final(fs).wf(),
            ({
                let vaults0 = old(self).spec_data()@.vaults;
                let idx = key_at(vaults0, name@);
                match r {
                    Ok(_) => {
                        &&& !has_key(vaults0, new_name@)
                        &&& has_key(vaults0, name@)
                        &&& rename_ok_post(
                            *old(fs),
                            *final(fs),
                            Item::Vault,
                            name@,
                            new_name@,
                            loc_of(vaults0, name@),
                        )
                        &&& final(self).spec_data()@.vaults =~= vaults0.update(
                            idx,
                            (new_name@, loc_of(vaults0, name@)),
                        )
                        &&& final(self).spec_data()@.current == (if old(self).spec_data()@.current
                            == Some(name@) {
                            Some(new_name@)
                        } else {
                            old(self).spec_data()@.current
                        })
                        &&& final(self).spec_metas().len() == old(self).spec_metas().len()
                        &&& forall|i: int|
                            0 <= i < old(self).spec_metas().len() && i != idx
                                ==> #[trigger] final(self).spec_metas()[i] == old(
                                self,
                            ).spec_metas()[i]
                        &&& final(self).spec_metas()[idx]@ == (VaultModel {
                            name: Some(new_name@),
                            ..old(self).spec_metas()[idx]@
                        })
                    },
                    Err(e) => {
                        &&& *final(self) == *old(self)
                        &&& match e {
                            Error::VaultAlreadyExists(n) => has_key(vaults0, new_name@) && n@
                                == new_name@ && fs_unchanged(*old(fs), *final(fs)),
                            Error::VaultNotFound(n) => !has_key(vaults0, new_name@) && !has_key(
                                vaults0,
                                name@,
                            ) && n@ == name@ && fs_unchanged(*old(fs), *final(fs)),
                            _ => !has_key(vaults0, new_name@) && has_key(vaults0, name@)
                                && rename_err_post(
                                *old(fs),
                                *final(fs),
                                e,
                                Item::Vault,
                                name@,
                                new_name@,
                                loc_of(vaults0, name@),
                            ),
                        }
                    },
                }
            }),
    {
        if self.data.vault_exists(new_name) {
            return Err(Error::VaultAlreadyExists(new_name.clone()));
        }
        let idx = match self.data.index_of(name) {
            Some(i) => i,
            None => {
                return Err(Error::VaultNotFound(name.clone()));
            },
        };
        let loc = self.metas[idx].get_location().clone();
        proof {
            assert(loc@ == loc_of(self.spec_data()@.vaults, name@));
        }
        if let Err(e) = item_store::rename_item(fs, Item::Vault, name, new_name, &loc) {
            return Err(e);
        }
        let mut meta = self.metas.remove(idx);
        meta.set_name(new_name.clone());
        self.metas.insert(idx, meta);
        self.data.rename_vault(name, new_name.clone());
        proof {
            let vaults0 = old(self).spec_data()@.vaults;
            assert forall|i: int|
                0 <= i < self.spec_metas().len() implies (#[trigger] self.spec_metas()[i]).wf()
                    && self.spec_metas()[i].ready() && self.spec_metas()[i]@.name == Some(
                    self.spec_data()@.vaults[i].0,
                ) && self.spec_metas()[i]@.location == Some(self.spec_data()@.vaults[i].1) by {
                if i != idx {
                    assert(self.spec_metas()[i] == old(self).spec_metas()[i]);
                    assert(self.spec_data()@.vaults[i] == vaults0[i]);
                }
            }
        }
        Ok(())
    }

    /// Move the vault's directory to a new absolute location, and
    /// record the location in its metadata and the registry.
    pub fn move_vault(&mut self, name: &String, new_location: &SysPath, fs: &mut Fs) -> (r: Result<
        (),
        Error,
    >)
        requires
            old(self).wf(),
            old(fs).wf(),
            new_location.wf(),
        ensures
            final(self).wf(),
            final(fs).wf(),
            ({
                let vaults0 = old(self).spec_data()@.vaults;
                let idx = key_at(vaults0, name@);
                let norm = PathModel { abs: new_location@.abs, segs: norm_segs(
                    new_location@.segs,
                ) };
                match r {
                    Ok(_) => {
                        &&& new_location@.abs
                        &&& has_key(vaults0, name@)
                        &&& move_ok_post(
                            *old(fs),
                            *final(fs),
                            Item::Vault,
                            name@,
                            loc_of(vaults0, name@),
                            norm,
                        )
                        &&& final(self).spec_data()@.vaults =~= vaults0.update(
                            idx,
                            (name@, norm),
                        )
                        &&& final(self).spec_data()@.current == old(self).spec_data()@.current
                        &&& final(self).spec_metas().len() == old(self).spec_metas().len()
                        &&& forall|i: int|
                            0 <= i < old(self).spec_metas().len() && i != idx
                                ==> #[trigger] final(self).spec_metas()[i] == old(
                                self,
                            ).spec_metas()[i]
                        &&& final(self).spec_metas()[idx]@ == (VaultModel {
                            location: Some(norm),
                            ..old(self).spec_metas()[idx]@
                        })
                    },
                    Err(e) => {
                        &&& *final(self) == *old(self)
                        &&& match e {
                            Error::PathNotAbsolute => !new_location@.abs && fs_unchanged(
                                *old(fs),
                                *final(fs),
                            ),
                            Error::VaultNotFound(n) => new_location@.abs && !has_key(
                                vaults0,
                                name@,
                            ) && n@ == name@ && fs_unchanged(*old(fs), *final(fs)),
                            _ => new_location@.abs && has_key(vaults0, name@) && move_err_post(
                                *old(fs),
                                *final(fs),
                                e,
                                Item::Vault,
                                name@,
                                loc_of(vaults0, name@),
                                norm,
                            ),
                        }
                    },
                }
            }),
    {
        if !new_location.is_absolute() {
            return Err(Error::PathNotAbsolute);
        }
        let idx = match self.data.index_of(name) {
            Some(i) => i,
            None => {
                return Err(Error::VaultNotFound(name.clone()));
            },
        };
        let loc = self.metas[idx].get_location().clone();
        proof {
            assert(loc@ == loc_of(self.spec_data()@.vaults, name@));
        }
        let norm = process_path(new_location);
        proof {
            crate::paths::lemma_norm_segs_normal(new_location@.segs);
        }
        if let Err(e) = item_store::move_item(fs, Item::Vault, name, &loc, &norm) {
            return Err(e);
        }
        let mut meta = self.metas.remove(idx);
        meta.set_location(norm.clone());
        self.metas.insert(idx, meta);
        self.data.set_vault_location(name, norm);
        proof {
            let vaults0 = old(self).spec_data()@.vaults;
            assert forall|i: int|
                0 <= i < self.spec_metas().len() implies (#[trigger] self.spec_metas()[i]).wf()
                    && self.spec_metas()[i].ready() && self.spec_metas()[i]@.name == Some(
                    self.spec_data()@.vaults[i].0,
                ) && self.spec_metas()[i]@.location == Some(self.spec_data()@.vaults[i].1) by {
                if i != idx {
                    assert(self.spec_metas()[i] == old(self).spec_metas()[i]);
                    assert(self.spec_data()@.vaults[i] == vaults0[i]);
                }
            }
        }
        Ok(())
    }

    /// Move a note or folder of the entered vault into the root of the
    /// named other vault.
    pub fn move_to_vault(
        &self,
        item_type: &VaultItem,
        name: &String,
        vault_name: &String,
        fs: &mut Fs,
    ) -> (r: Result<(), Error>)
        requires
            self.wf(),
            old(fs).wf(),
        ensures
            final(fs).wf(),
            ({
                let vaults0 = self.spec_data()@.vaults;
                let cur = self.current_meta();
                let target_root = PathModel {
                    abs: true,
                    segs: loc_of(vaults0, vault_name@).segs.push(vault_name@),
                };
                match r {
                    Ok(_) => {
                        &&& has_key(vaults0, vault_name@)
                        &&& self.spec_data()@.current is Some
                        &&& vault_name@ != cur@.name.unwrap()
                        &&& move_ok_post(
                            *old(fs),
                            *final(fs),
                            item_type.as_item(),
                            name@,
                            cur.current_loc_model(),
                            target_root,
                        )
                    },
                    Err(e) => match e {
                        Error::VaultNotFound(n) => !has_key(vaults0, vault_name@) && n@
                            == vault_name@ && fs_unchanged(*old(fs), *final(fs)),
                        Error::NotInsideVault => has_key(vaults0, vault_name@)
                            && self.spec_data()@.current is None && fs_unchanged(
                            *old(fs),
                            *final(fs),
                        ),
                        _ => has_key(vaults0, vault_name@) && self.spec_data()@.current is Some
                            && if vault_name@ == cur@.name.unwrap() {
                            e is SameLocation && fs_unchanged(*old(fs), *final(fs))
                        } else {
                            move_err_post(
                                *old(fs),
                                *final(fs),
                                e,
                                item_type.as_item(),
                                name@,
                                cur.current_loc_model(),
                                target_root,
                            )
                        },
                    },
                }
            }),
    {
        let vault_location = match self.data.get_vault_location(vault_name) {
            Some(l) => l.clone(),
            None => {
                return Err(Error::VaultNotFound(vault_name.clone()));
            },
        };
        let current = match self.ref_current() {
            Ok(v) => v,
            Err(e) => {
                return Err(e);
            },
        };
        proof {
            let w = key_at(self.spec_data()@.vaults, vault_name@);
            assert(self.spec_data()@.vaults[w].0 == vault_name@);
        }
        current.vmove_vault_item(item_type, name, vault_name, &vault_location, fs)
    }

    /// Enter the named vault; entering the vault one is already in is
    /// reported rather than repeated.
    pub fn enter_vault(&mut self, name: &String) -> (r: Result<(), Error>)
        requires
            old(self).wf(),
        ensures
            final(self).wf(),
            match r {
                Ok(_) => {
                    &&& has_key(old(self).spec_data()@.vaults, name@)
                    &&& old(self).spec_data()@.current != Some(name@)
                    &&& final(self).spec_data()@.current == Some(name@)
                    &&& final(self).spec_data()@.vaults == old(self).spec_data()@.vaults
                    &&& final(self).spec_metas() == old(self).spec_metas()
                },
                Err(e) => *final(self) == *old(self) && match e {
                    Error::VaultNotFound(n) => !has_key(old(self).spec_data()@.vaults, name@)
                        && n@ == name@,
                    Error::AlreadyInVault(n) => has_key(old(self).spec_data()@.vaults, name@)
                        && old(self).spec_data()@.current == Some(name@) && n@ == name@,
                    _ => false,
                },
            },
    {
        if !self.data.vault_exists(name) {
            return Err(Error::VaultNotFound(name.clone()));
        }
        let entered = match self.data.get_current_vault() {
            Some(c) => string_eq(c, name),
            None => false,
        };
        if entered {
            return Err(Error::AlreadyInVault(name.clone()));
        }
        self.data.set_current_vault(Some(name.clone()));
        Ok(())
    }
}

/// Replacing the entered vault's metadata with one that keeps its name
/// and location keeps registry and metadata agreeing.
pub proof fn lemma_consistent_update(pre: Vaults, post: Vaults, m: Vault)
    requires
        pre.wf(),
        pre.spec_data()@.current is Some,
        post.spec_data() == pre.spec_data(),
        post.spec_metas() == pre.spec_metas().update(pre.current_index(), m),
        m.wf(),
        m.ready(),
        m@.name == pre.current_meta()@.name,
        m@.location == pre.current_meta()@.location,
    ensures
        post.wf(),
{
    let idx = pre.current_index();
    let c = pre.spec_data()@.current.unwrap();
    assert(has_key(pre.spec_data()@.vaults, c));
    let w = choose|w: int|
        0 <= w < pre.spec_data()@.vaults.len() && (#[trigger] pre.spec_data()@.vaults[w]).0 == c;
    assert(0 <= idx < pre.spec_data()@.vaults.len() && pre.spec_data()@.vaults[idx].0 == c);
    assert forall|i: int|
        0 <= i < post.spec_metas().len() implies (#[trigger] post.spec_metas()[i]).wf()
            && post.spec_metas()[i].ready() && post.spec_metas()[i]@.name == Some(
            post.spec_data()@.vaults[i].0,
        ) && post.spec_metas()[i]@.location == Some(post.spec_data()@.vaults[i].1) by {
        if i != idx {
            assert(post.spec_metas()[i] == pre.spec_metas()[i]);
        }
    }
}

/// Each registered vault's metadata carries exactly the name and
/// location the registry records for it.
pub proof fn lemma_registry_metadata_consistent(v: Vaults, i: int)
    requires
        v.wf(),
        0 <= i < v.spec_data()@.vaults.len(),
    ensures
        v.spec_metas()[i]@.name == Some(v.spec_data()@.vaults[i].0),
        v.spec_metas()[i]@.location == Some(v.spec_data()@.vaults[i].1),
{
}

} // verus!
