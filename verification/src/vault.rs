//! Per-vault metadata and the operations scoped to the entered vault.
//!
//! The metadata mirrors the vault's name and root location, the folder
//! the user currently stands in, an unused history, and the aliases of
//! notes. Mutators only change the value; persisting it is the shell's
//! concern, done after every successful command.

use vstd::prelude::*;

use crate::enums::{Item, VaultItem};
use crate::fs_model::{Fs, FsAction};
use crate::item_store;
use crate::item_store::{
    create_err_post, create_ok_post, fs_unchanged, item_target, move_err_post, move_ok_post,
    pushed_one, remove_err_post, remove_ok_post, rename_err_post, rename_ok_post,
};
use crate::output::Error;
use crate::paths::{
    check_item_name, is_seg_prefix, item_name_ok, join_models, lemma_norm_segs_normal, norm_segs,
    path_starts_with, seg_is_normal, segs_normal, string_eq, PathModel, SysPath,
};

verus! {

/// Mathematical model of a vault's metadata.
#[verifier::ext_equal]
pub ghost struct VaultModel {
    pub name: Option<Seq<char>>,
    pub location: Option<PathModel>,
    pub folder: PathModel,
    pub history: Seq<(Seq<char>, PathModel)>,
    pub aliases: Seq<(Seq<char>, Seq<char>)>,
}

/// The alias pairs as the logic sees them.
pub open spec fn aliases_view(v: Seq<(String, String)>) -> Seq<(Seq<char>, Seq<char>)> {
    Seq::new(v.len(), |i: int| (v[i].0@, v[i].1@))
}

/// The alias pairs whose note is not `k`.
pub open spec fn aliases_without(s: Seq<(Seq<char>, Seq<char>)>, k: Seq<char>) -> Seq<
    (Seq<char>, Seq<char>),
> {
    s.filter(|e: (Seq<char>, Seq<char>)| e.0 != k)
}

/// Some alias pair has this note name as its key.
pub open spec fn has_alias_key(s: Seq<(Seq<char>, Seq<char>)>, k: Seq<char>) -> bool {
    exists|i: int| 0 <= i < s.len() && (#[trigger] s[i]).0 == k
}

/// The directory is present, or is a filesystem root, which always is.
pub open spec fn dir_present(fs: Fs, segs: Seq<Seq<char>>) -> bool {
    segs.len() == 0 || (fs@.dom().contains(segs) && fs@[segs])
}

/// One vault's metadata: name and root location (mirroring the
/// registry), the current folder relative to the vault root, the
/// note-open history, and the note aliases.
#[derive(Debug)]
pub struct Vault {
    name: Option<String>,
    location: Option<SysPath>,
    folder: SysPath,
    history: Vec<(String, SysPath)>,
    aliases: Vec<(String, String)>,
}

impl View for Vault {
    type V = VaultModel;

    closed spec fn view(&self) -> VaultModel {
        VaultModel {
            name: match self.name {
                Some(n) => Some(n@),
                None => None,
            },
            location: match self.location {
                Some(l) => Some(l@),
                None => None,
            },
            folder: self.folder@,
            history: Seq::new(
                self.history@.len(),
                |i: int| (self.history@[i].0@, self.history@[i].1@),
            ),
            aliases: aliases_view(self.aliases@),
        }
    }
}

impl Default for Vault {
    /// Fresh metadata: no name or location yet, standing at the root.
    fn default() -> (r: Self)
        ensures
            r@.name is None,
            r@.location is None,
            !r@.folder.abs,
            r@.folder.segs =~= Seq::<Seq<char>>::empty(),
            r@.history =~= Seq::<(Seq<char>, PathModel)>::empty(),
            r@.aliases =~= Seq::<(Seq<char>, Seq<char>)>::empty(),
            r.wf(),
    {
        let r = Vault {
            name: None,
            location: None,
            folder: SysPath::new(false),
            history: Vec::new(),
            aliases: Vec::new(),
        };
        proof {
            assert(r@.history =~= Seq::<(Seq<char>, PathModel)>::empty());
            assert(r@.aliases =~= Seq::<(Seq<char>, Seq<char>)>::empty());
        }
        r
    }
}

impl Vault {
    /// The stored fields are sound: names valid, the location absolute
    /// and normalized, the folder relative and normalized, alias keys
    /// and alias values each free of repeats.
    pub open spec fn wf(self) -> bool {
        &&& (self@.name matches Some(n) ==> item_name_ok(n))
        &&& (self@.location matches Some(l) ==> l.abs && segs_normal(l.segs))
        &&& !self@.folder.abs
        &&& segs_normal(self@.folder.segs)
        &&& (forall|i: int, j: int|
            0 <= i < j < self@.aliases.len() ==> (#[trigger] self@.aliases[i]).0
                != (#[trigger] self@.aliases[j]).0)
        &&& (forall|i: int, j: int|
            0 <= i < j < self@.aliases.len() ==> (#[trigger] self@.aliases[i]).1
                != (#[trigger] self@.aliases[j]).1)
        &&& (forall|i: int|
            0 <= i < self@.aliases.len() ==> item_name_ok((#[trigger] self@.aliases[i]).0)
                && item_name_ok(self@.aliases[i].1))
    }

    /// Name and location have been set.
    pub open spec fn ready(self) -> bool {
        self@.name is Some && self@.location is Some
    }

    /// The segments of the vault's own directory.
    pub open spec fn vault_root(self) -> Seq<Seq<char>>
        recommends
            self.ready(),
    {
        self@.location.unwrap().segs.push(self@.name.unwrap())
    }

    /// The vault's own directory, as a path.
    pub open spec fn root_model(self) -> PathModel {
        PathModel { abs: true, segs: self.vault_root() }
    }

    /// The segments of the folder the user stands in.
    pub open spec fn current_location(self) -> Seq<Seq<char>>
        recommends
            self.ready(),
    {
        self.vault_root() + self@.folder.segs
    }

    /// The folder the user stands in, as a path.
    pub open spec fn current_loc_model(self) -> PathModel {
        PathModel { abs: true, segs: self.current_location() }
    }

    /// The vault's paths are made of normal segments.
    pub proof fn lemma_locs_normal(self)
        requires
            self.wf(),
            self.ready(),
        ensures
            segs_normal(self.vault_root()),
            segs_normal(self.current_location()),
            self.vault_root().len() >= 1,
    {
        let root = self.vault_root();
        let loc = self@.location.unwrap();
        assert forall|i: int| 0 <= i < root.len() implies seg_is_normal(#[trigger] root[i]) by {
            if i < loc.segs.len() {
                assert(root[i] == loc.segs[i]);
            }
        }
        let cur = self.current_location();
        assert forall|i: int| 0 <= i < cur.len() implies seg_is_normal(#[trigger] cur[i]) by {
            if i < root.len() {
                assert(cur[i] == root[i]);
            } else {
                assert(cur[i] == self@.folder.segs[i - root.len()]);
            }
        }
    }

    pub fn get_name(&self) -> (r: &String)
        requires
            self@.name is Some,
        ensures
            r@ == self@.name.unwrap(),
    {
        match &self.name {
            Some(n) => n,
            None => vstd::pervasive::unreached(),
        }
    }

    pub fn set_name(&mut self, name: String)
        requires
            item_name_ok(name@),
        ensures
            final(self)@ == (VaultModel { name: Some(name@), ..old(self)@ }),
            old(self).wf() ==> final(self).wf(),
    {
        self.name = Some(name);
        assert(self@ =~= (VaultModel { name: Some(self@.name.unwrap()), ..old(self)@ }));
    }

    pub fn get_location(&self) -> (r: &SysPath)
        requires
            self@.location is Some,
        ensures
            r@ == self@.location.unwrap(),
    {
        match &self.location {
            Some(l) => l,
            None => vstd::pervasive::unreached(),
        }
    }

    pub fn set_location(&mut self, location: SysPath)
        requires
            location@.abs,
            segs_normal(location@.segs),
        ensures
            final(self)@ == (VaultModel { location: Some(location@), ..old(self)@ }),
            old(self).wf() ==> final(self).wf(),
    {
        self.location = Some(location);
        assert(self@ =~= (VaultModel { location: Some(self@.location.unwrap()), ..old(self)@ }));
    }

    pub fn get_folder(&self) -> (r: &SysPath)
        ensures
            r@ == self@.folder,
    {
        &self.folder
    }

    pub fn set_folder(&mut self, folder: SysPath)
        requires
            !folder@.abs,
            segs_normal(folder@.segs),
        ensures
            final(self)@ == (VaultModel { folder: folder@, ..old(self)@ }),
            old(self).wf() ==> final(self).wf(),
    {
        self.folder = folder;
        assert(self@ =~= (VaultModel { folder: self@.folder, ..old(self)@ }));
    }

    /// The note aliases, as stored pairs of note name and alias.
    pub fn get_aliases(&self) -> (r: &Vec<(String, String)>)
        ensures
            aliases_view(r@) == self@.aliases,
    {
        &self.aliases
    }

    /// Name, location and current folder at once.
    pub fn get_path_data(&self) -> (r: (&String, &SysPath, &SysPath))
        requires
            self.ready(),
        ensures
            r.0@ == self@.name.unwrap(),
            r.1@ == self@.location.unwrap(),
            r.2@ == self@.folder,
    {
        (self.get_name(), self.get_location(), self.get_folder())
    }

    /// The absolute path of the folder the user stands in.
    pub fn generate_location(&self) -> (r: SysPath)
        requires
            self.wf(),
            self.ready(),
        ensures
            r@ == self.current_loc_model(),
            segs_normal(r@.segs),
    {
        let root = self.get_location().child(self.get_name());
        let r = root.join(self.get_folder());
        proof {
            assert(r@.segs =~= self.current_location());
            assert(r@ =~= self.current_loc_model());
            self.lemma_locs_normal();
        }
        r
    }

    /// Where this vault's metadata file lives, inside the vault.
    pub fn data_path(&self) -> (r: SysPath)
        requires
            self.wf(),
            self.ready(),
        ensures
            r@.abs,
            r@.segs =~= self.vault_root() + seq![".jot"@, "data"@],
    {
        let root = self.get_location().child(self.get_name());
        let meta_dir = String::from_str(".jot");
        let meta_file = String::from_str("data");
        proof {
            reveal_strlit(".jot");
            reveal_strlit("data");
        }
        let r = root.child(&meta_dir).child(&meta_file);
        proof {
            assert(r@.segs =~= self.vault_root() + seq![".jot"@, "data"@]);
        }
        r
    }

    /// Create a note or folder in the current folder.
    pub fn create_vault_item(&self, item_type: VaultItem, name: &String, fs: &mut Fs) -> (r: Result<
        (),
        Error,
    >)
        requires
            self.wf(),
            self.ready(),
            old(fs).wf(),
        ensures
            final(fs).wf(),
            match r {
                Ok(_) => create_ok_post(
                    *old(fs),
                    *final(fs),
                    item_type.as_item(),
                    name@,
                    self.current_loc_model(),
                ),
                Err(e) => create_err_post(
                    *old(fs),
                    *final(fs),
                    e,
                    item_type.as_item(),
                    name@,
                    self.current_loc_model(),
                ),
            },
    {
        let location = self.generate_location();
        match item_store::create_item(fs, item_type.to_item(), name, &location) {
            Ok(_) => Ok(()),
            Err(e) => Err(e),
        }
    }

    /// Remove a note or folder from the current folder.
    pub fn remove_vault_item(&self, item_type: VaultItem, name: &String, fs: &mut Fs) -> (r: Result<
        (),
        Error,
    >)
        requires
            self.wf(),
            self.ready(),
            old(fs).wf(),
        ensures
            final(fs).wf(),
            match r {
                Ok(_) => remove_ok_post(
                    *old(fs),
                    *final(fs),
                    item_type.as_item(),
                    name@,
                    self.current_loc_model(),
                ),
                Err(e) => remove_err_post(
                    *old(fs),
                    *final(fs),
                    e,
                    item_type.as_item(),
                    name@,
                    self.current_loc_model(),
                ),
            },
    {
        let location = self.generate_location();
        item_store::remove_item(fs, item_type.to_item(), name, &location)
    }

    /// Rename a note or folder in the current folder.
    pub fn rename_vault_item(
        &self,
        item_type: VaultItem,
        name: &String,
        new_name: &String,
        fs: &mut Fs,
    ) -> (r: Result<(), Error>)
        requires
            self.wf(),
            self.ready(),
            old(fs).wf(),
        ensures
            final(fs).wf(),
            match r {
                Ok(_) => rename_ok_post(
                    *old(fs),
                    *final(fs),
                    item_type.as_item(),
                    name@,
                    new_name@,
                    self.current_loc_model(),
                ),
                Err(e) => rename_err_post(
                    *old(fs),
                    *final(fs),
                    e,
                    item_type.as_item(),
                    name@,
                    new_name@,
                    self.current_loc_model(),
                ),
            },
    {
        let location = self.generate_location();
        match item_store::rename_item(fs, item_type.to_item(), name, new_name, &location) {
            Ok(_) => Ok(()),
            Err(e) => Err(e),
        }
    }

    /// Where a relative move target lands, after lexical normalization.
    pub open spec fn move_destination(self, nl: PathModel) -> PathModel {
        let joined = join_models(self.current_loc_model(), nl);
        PathModel { abs: joined.abs, segs: norm_segs(joined.segs) }
    }

    /// Move a note or folder from the current folder to another folder
    /// of the same vault, named relative to the current folder. A
    /// destination that leaves the vault is rejected as out of bounds.
    pub fn move_vault_item(
        &self,
        item_type: VaultItem,
        name: &String,
        new_location: &SysPath,
        fs: &mut Fs,
    ) -> (r: Result<(), Error>)
        requires
            self.wf(),
            self.ready(),
            old(fs).wf(),
            new_location.wf(),
        ensures
            final(fs).wf(),
            ({
                let dest = self.move_destination(new_location@);
                match r {
                    Ok(_) => path_starts_with(dest, self.root_model()) && move_ok_post(
                        *old(fs),
                        *final(fs),
                        item_type.as_item(),
                        name@,
                        self.current_loc_model(),
                        dest,
                    ),
                    Err(e) => if e is OutOfBounds {
                        !path_starts_with(dest, self.root_model()) && fs_unchanged(
                            *old(fs),
                            *final(fs),
                        )
                    } else {
                        path_starts_with(dest, self.root_model()) && move_err_post(
                            *old(fs),
                            *final(fs),
                            e,
                            item_type.as_item(),
                            name@,
                            self.current_loc_model(),
                            dest,
                        )
                    },
                }
            }),
    {
        let location = self.generate_location();
        let joined = location.join(new_location);
        let dest = crate::paths::process_path(&joined);
        let root = self.get_location().child(self.get_name());
        proof {
            assert(root@ =~= self.root_model());
            assert(dest@ =~= self.move_destination(new_location@));
        }
        if !dest.starts_with(&root) {
            return Err(Error::OutOfBounds);
        }
        proof {
            lemma_norm_segs_normal(joined@.segs);
        }
        match item_store::move_item(fs, item_type.to_item(), name, &location, &dest) {
            Ok(_) => Ok(()),
            Err(e) => Err(e),
        }
    }

    /// Move a note or folder from the current folder into the root of
    /// another vault. Moving to the vault one is already in is refused.
    pub fn vmove_vault_item(
        &self,
        item_type: &VaultItem,
        name: &String,
        vault_name: &String,
        vault_location: &SysPath,
        fs: &mut Fs,
    ) -> (r: Result<(), Error>)
        requires
            self.wf(),
            self.ready(),
            old(fs).wf(),
            vault_location@.abs,
            segs_normal(vault_location@.segs),
            item_name_ok(vault_name@),
        ensures
            final(fs).wf(),
            ({
                let target_root = PathModel {
                    abs: true,
                    segs: vault_location@.segs.push(vault_name@),
                };
                match r {
                    Ok(_) => vault_name@ != self@.name.unwrap() && move_ok_post(
                        *old(fs),
                        *final(fs),
                        item_type.as_item(),
                        name@,
                        self.current_loc_model(),
                        target_root,
                    ),
                    Err(e) => if vault_name@ == self@.name.unwrap() {
                        e is SameLocation && fs_unchanged(*old(fs), *final(fs))
                    } else {
                        move_err_post(
                            *old(fs),
                            *final(fs),
                            e,
                            item_type.as_item(),
                            name@,
                            self.current_loc_model(),
                            target_root,
                        )
                    },
                }
            }),
    {
        if string_eq(vault_name, self.get_name()) {
            return Err(Error::SameLocation);
        }
        let location = self.generate_location();
        let target_root = vault_location.child(vault_name);
        proof {
            assert forall|i: int|
                0 <= i < target_root@.segs.len() implies seg_is_normal(
                #[trigger] target_root@.segs[i],
            ) by {
                if i < vault_location@.segs.len() {
                    assert(target_root@.segs[i] == vault_location@.segs[i]);
                }
            }
        }
        match item_store::move_item(fs, item_type.to_item(), name, &location, &target_root) {
            Ok(_) => Ok(()),
            Err(e) => Err(e),
        }
    }

    /// Change the current folder to the given path, resolved from the
    /// current folder, `..` allowed. The destination must exist and
    /// must stay inside the vault; standing still is refused.
    pub fn change_folder(&mut self, path: &SysPath, fs: &Fs) -> (r: Result<(), Error>)
        requires
            old(self).wf(),
            old(self).ready(),
            fs.wf(),
            path.wf(),
        ensures
            final(self).wf(),
            final(self).ready(),
            final(self)@.name == old(self)@.name,
            final(self)@.location == old(self)@.location,
            final(self)@.history == old(self)@.history,
            final(self)@.aliases == old(self)@.aliases,
            ({
                let dest = old(self).move_destination(path@);
                let root = old(self).root_model();
                match r {
                    Ok(_) => {
                        &&& dir_present(*fs, dest.segs)
                        &&& path_starts_with(dest, root)
                        &&& dest.segs != old(self).current_location()
                        &&& !final(self)@.folder.abs
                        &&& final(self)@.folder.segs == dest.segs.skip(root.segs.len() as int)
                    },
                    Err(e) => final(self)@ == old(self)@ && match e {
                        Error::OutOfBounds => !path_starts_with(dest, root),
                        Error::PathNotFound => path_starts_with(dest, root) && !dir_present(
                            *fs,
                            dest.segs,
                        ),
                        Error::SameLocation => path_starts_with(dest, root) && dir_present(
                            *fs,
                            dest.segs,
                        ) && dest.segs == old(self).current_location(),
                        _ => false,
                    },
                }
            }),
    {
        let current = self.generate_location();
        let joined = current.join(path);
        let dest = crate::paths::process_path(&joined);
        proof {
            assert(dest@ =~= old(self).move_destination(path@));
        }
        let root = self.get_location().child(self.get_name());
        proof {
            assert(root@ =~= old(self).root_model());
        }
        if !dest.starts_with(&root) {
            return Err(Error::OutOfBounds);
        }
        let present = if dest.seg_count() == 0 {
            true
        } else {
            fs.is_dir(&dest)
        };
        if !present {
            return Err(Error::PathNotFound);
        }
        if dest.equals(&current) {
            return Err(Error::SameLocation);
        }
        let rel = dest.strip_prefix(&root);
        proof {
            lemma_norm_segs_normal(joined@.segs);
            assert forall|i: int|
                0 <= i < rel@.segs.len() implies seg_is_normal(#[trigger] rel@.segs[i]) by {
                assert(rel@.segs[i] == dest@.segs[i + root@.segs.len()]);
            }
        }
        self.set_folder(rel);
        Ok(())
    }

    /// The alias may not shadow a note or folder of the current folder,
    /// nor repeat another note's alias.
    pub open spec fn alias_collides(self, fs: Fs, note_name: Seq<char>, alias: Seq<char>) -> bool {
        ||| fs@.dom().contains(self.current_location().push(alias + ".md"@))
        ||| fs@.dom().contains(self.current_location().push(alias))
        ||| exists|i: int|
            0 <= i < self@.aliases.len() && (#[trigger] self@.aliases[i]).1 == alias
                && self@.aliases[i].0 != note_name
    }

    /// Give the note an alias, replacing the note's previous alias if
    /// it had one. A name collision is rejected as invalid.
    pub fn set_alias(&mut self, note_name: &String, alias: &String, fs: &Fs) -> (r: Result<
        (),
        Error,
    >)
        requires
            old(self).wf(),
            old(self).ready(),
            fs.wf(),
        ensures
            final(self).wf(),
            final(self).ready(),
            final(self)@.name == old(self)@.name,
            final(self)@.location == old(self)@.location,
            final(self)@.folder == old(self)@.folder,
            final(self)@.history == old(self)@.history,
            match r {
                Ok(_) => {
                    &&& item_name_ok(note_name@) && item_name_ok(alias@)
                    &&& !old(self).alias_collides(*fs, note_name@, alias@)
                    &&& final(self)@.aliases =~= aliases_without(
                        old(self)@.aliases,
                        note_name@,
                    ).push((note_name@, alias@))
                },
                Err(e) => {
                    &&& final(self)@ == old(self)@
                    &&& e is InvalidName
                    &&& (!item_name_ok(note_name@) || !item_name_ok(alias@) || old(
                        self,
                    ).alias_collides(*fs, note_name@, alias@))
                },
            },
    {
        if !check_item_name(note_name) || !check_item_name(alias) {
            return Err(Error::InvalidName);
        }
        let location = self.generate_location();
        let note_path = match item_store::generate_item_path(&Item::Note, alias, &location) {
            Ok(p) => p,
            Err(_) => {
                return Err(Error::InvalidName);
            },
        };
        if let Some(_) = fs.lookup(&note_path) {
            return Err(Error::InvalidName);
        }
        let folder_path = location.child(alias);
        if let Some(_) = fs.lookup(&folder_path) {
            return Err(Error::InvalidName);
        }
        let ghost s = self.aliases@;
        let mut i: usize = 0;
        while i < self.aliases.len()
            invariant
                s == self.aliases@,
                i <= s.len(),
                *self == *old(self),
                self.wf(),
                self.ready(),
                forall|j: int|
                    0 <= j < i ==> !((#[trigger] aliases_view(s)[j]).1 == alias@
                        && aliases_view(s)[j].0 != note_name@),
            decreases s.len() - i,
        {
            let e = &self.aliases[i];
            if string_eq(&e.1, alias) && !string_eq(&e.0, note_name) {
                proof {
                    assert(aliases_view(s)[i as int].1 == alias@ && aliases_view(s)[i as int].0
                        != note_name@);
                    assert(old(self)@.aliases == aliases_view(s));
                    assert((#[trigger] old(self)@.aliases[i as int]).1 == alias@
                        && old(self)@.aliases[i as int].0 != note_name@);
                    assert(old(self).alias_collides(*fs, note_name@, alias@));
                }
                return Err(Error::InvalidName);
            }
            i += 1;
        }
        let mut kept: Vec<(String, String)> = Vec::new();
        let mut j: usize = 0;
        while j < self.aliases.len()
            invariant
                s == self.aliases@,
                j <= s.len(),
                aliases_view(kept@) =~= aliases_without(aliases_view(s).take(j as int), note_name@),
            decreases s.len() - j,
        {
            let ghost kept0 = aliases_view(kept@);
            let e = &self.aliases[j];
            if !string_eq(&e.0, note_name) {
                kept.push((e.0.clone(), e.1.clone()));
                proof {
                    assert(aliases_view(kept@) =~= kept0.push((s[j as int].0@, s[j as int].1@)));
                }
            }
            proof {
                reveal(Seq::filter);
                let pre = aliases_view(s).take(j as int + 1);
                assert(pre.drop_last() =~= aliases_view(s).take(j as int));
                assert(pre.last() == aliases_view(s)[j as int]);
                assert(aliases_view(kept@) =~= aliases_without(
                    aliases_view(s).take(j as int + 1),
                    note_name@,
                ));
            }
            j += 1;
        }
        kept.push((note_name.clone(), alias.clone()));
        self.aliases = kept;
        proof {
            reveal(Seq::filter);
            assert(aliases_view(s).take(s.len() as int) =~= aliases_view(s));
            assert(self@ =~= (VaultModel { aliases: self@.aliases, ..old(self)@ }));
            let without = aliases_without(old(self)@.aliases, note_name@);
            assert(self@.aliases =~= without.push((note_name@, alias@)));
            lemma_filter_props(old(self)@.aliases, note_name@);
            assert forall|a: int, b: int|
                0 <= a < b < self@.aliases.len() implies (#[trigger] self@.aliases[a]).0
                    != (#[trigger] self@.aliases[b]).0 && self@.aliases[a].1
                    != self@.aliases[b].1 by {
                if b < self@.aliases.len() - 1 {
                    assert(self@.aliases[a] == without[a] && self@.aliases[b] == without[b]);
                } else {
                    assert(self@.aliases[a] == without[a]);
                    let o = choose|o: int|
                        0 <= o < old(self)@.aliases.len() && (#[trigger] without[a]) == old(
                            self,
                        )@.aliases[o] && old(self)@.aliases[o].0 != note_name@;
                    assert(self@.aliases[b] == (note_name@, alias@));
                }
            }
            assert forall|a: int|
                0 <= a < self@.aliases.len() implies item_name_ok(
                (#[trigger] self@.aliases[a]).0,
            ) && item_name_ok(self@.aliases[a].1) by {
                if a < self@.aliases.len() - 1 {
                    assert(self@.aliases[a] == without[a]);
                    let o = choose|o: int|
                        0 <= o < old(self)@.aliases.len() && (#[trigger] without[a]) == old(
                            self,
                        )@.aliases[o] && old(self)@.aliases[o].0 != note_name@;
                }
            }
        }
        Ok(())
    }

    /// Drop the note's alias and hand it back.
    pub fn remove_alias(&mut self, note_name: &String) -> (r: Result<String, Error>)
        requires
            old(self).wf(),
        ensures
            final(self).wf(),
            final(self)@.name == old(self)@.name,
            final(self)@.location == old(self)@.location,
            final(self)@.folder == old(self)@.folder,
            final(self)@.history == old(self)@.history,
            match r {
                Ok(v) => (exists|i: int|
                    0 <= i < old(self)@.aliases.len() && (#[trigger] old(self)@.aliases[i]) == (
                    note_name@,
                    v@,
                )) && final(self)@.aliases =~= aliases_without(old(self)@.aliases, note_name@),
                Err(e) => final(self)@ == old(self)@ && e is AliasNotFound && !has_alias_key(
                    old(self)@.aliases,
                    note_name@,
                ),
            },
    {
        let ghost s = self.aliases@;
        let mut kept: Vec<(String, String)> = Vec::new();
        let mut removed: Option<String> = None;
        let mut j: usize = 0;
        while j < self.aliases.len()
            invariant
                s == self.aliases@,
                j <= s.len(),
                aliases_view(kept@) =~= aliases_without(aliases_view(s).take(j as int), note_name@),
                match removed {
                    Some(v) => exists|b: int|
                        0 <= b < j && (#[trigger] aliases_view(s)[b]) == (note_name@, v@),
                    None => forall|b: int|
                        0 <= b < j ==> (#[trigger] aliases_view(s)[b]).0 != note_name@,
                },
            decreases s.len() - j,
        {
            let ghost kept0 = aliases_view(kept@);
            let e = &self.aliases[j];
            if !string_eq(&e.0, note_name) {
                kept.push((e.0.clone(), e.1.clone()));
                proof {
                    assert(aliases_view(kept@) =~= kept0.push((s[j as int].0@, s[j as int].1@)));
                }
            } else {
                removed = Some(e.1.clone());
                proof {
                    assert(aliases_view(s)[j as int] == (note_name@, e.1@));
                }
            }
            proof {
                reveal(Seq::filter);
                let pre = aliases_view(s).take(j as int + 1);
                assert(pre.drop_last() =~= aliases_view(s).take(j as int));
                assert(pre.last() == aliases_view(s)[j as int]);
                assert(aliases_view(kept@) =~= aliases_without(
                    aliases_view(s).take(j as int + 1),
                    note_name@,
                ));
            }
            j += 1;
        }
        proof {
            assert(aliases_view(s).take(s.len() as int) =~= aliases_view(s));
        }
        match removed {
            None => Err(Error::AliasNotFound),
            Some(v) => {
                self.aliases = kept;
                proof {
                    assert(self@ =~= (VaultModel { aliases: self@.aliases, ..old(self)@ }));
                    lemma_filter_props(old(self)@.aliases, note_name@);
                    assert forall|a: int|
                        0 <= a < self@.aliases.len() implies item_name_ok(
                        (#[trigger] self@.aliases[a]).0,
                    ) && item_name_ok(self@.aliases[a].1) by {
                        let o = choose|o: int|
                            0 <= o < old(self)@.aliases.len() && (#[trigger] self@.aliases[a])
                                == old(self)@.aliases[o] && old(self)@.aliases[o].0 != note_name@;
                    }
                }
                Ok(v)
            },
        }
    }

    /// What `input` names: itself, when a note of that name is present
    /// in the current folder; otherwise the note whose alias it is.
    pub open spec fn resolves_to(self, fs: Fs, input: Seq<char>, n: Seq<char>) -> bool {
        if fs@.dom().contains(item_target(Item::Note, input, self.current_loc_model())) {
            n == input
        } else {
            exists|i: int| 0 <= i < self@.aliases.len() && (#[trigger] self@.aliases[i]) == (n, input)
        }
    }

    /// The canonical note name for a name-or-alias.
    pub fn resolve_alias_or_name(&self, input: &String, fs: &Fs) -> (r: Result<String, Error>)
        requires
            self.wf(),
            self.ready(),
            fs.wf(),
        ensures
            match r {
                Ok(n) => self.resolves_to(*fs, input@, n@) && item_name_ok(n@),
                Err(e) => match e {
                    Error::InvalidName => !item_name_ok(input@),
                    Error::ItemNotFound(k, nm) => item_name_ok(input@) && !fs@.dom().contains(
                        item_target(Item::Note, input@, self.current_loc_model()),
                    ) && (forall|i: int|
                        0 <= i < self@.aliases.len() ==> (#[trigger] self@.aliases[i]).1
                            != input@) && k is Note && nm@ == input@,
                    _ => false,
                },
            },
    {
        if !check_item_name(input) {
            return Err(Error::InvalidName);
        }
        let location = self.generate_location();
        let path = match item_store::generate_item_path(&Item::Note, input, &location) {
            Ok(p) => p,
            Err(_) => {
                return Err(Error::InvalidName);
            },
        };
        if let Some(_) = fs.lookup(&path) {
            return Ok(input.clone());
        }
        let mut i: usize = 0;
        while i < self.aliases.len()
            invariant
                i <= self.aliases@.len(),
                self.wf(),
                self.ready(),
                item_name_ok(input@),
                !fs@.dom().contains(item_target(Item::Note, input@, self.current_loc_model())),
                forall|j: int| 0 <= j < i ==> (#[trigger] self@.aliases[j]).1 != input@,
            decreases self.aliases@.len() - i,
        {
            let e = &self.aliases[i];
            if string_eq(&e.1, input) {
                proof {
                    assert(self@.aliases[i as int] == (e.0@, input@));
                }
                return Ok(e.0.clone());
            }
            proof {
                assert(self@.aliases[i as int].1 == e.1@);
            }
            i += 1;
        }
        Err(Error::ItemNotFound(Item::Note, input.clone()))
    }

    /// The absolute path of the note named or aliased by `name`, its
    /// opening recorded for the shell to hand to the editor.
    pub fn open_note(&self, name: &String, fs: &mut Fs) -> (r: Result<SysPath, Error>)
        requires
            self.wf(),
            self.ready(),
            old(fs).wf(),
        ensures
            final(fs).wf(),
            final(fs)@ == old(fs)@,
            match r {
                Ok(p) => {
                    &&& exists|n: Seq<char>|
                        #[trigger] self.resolves_to(*old(fs), name@, n) && p@.segs == item_target(
                            Item::Note,
                            n,
                            self.current_loc_model(),
                        )
                    &&& p@.abs
                    &&& old(fs)@.dom().contains(p@.segs)
                    &&& pushed_one(old(fs).actions(), final(fs).actions())
                    &&& (final(fs).actions().last() matches FsAction::OpenNote(q) && q@ == p@)
                },
                Err(e) => final(fs).actions() == old(fs).actions() && match e {
                    Error::InvalidName => !item_name_ok(name@),
                    Error::ItemNotFound(k, nm) => k is Note && (self.resolves_to(
                        *old(fs),
                        name@,
                        nm@,
                    ) && !old(fs)@.dom().contains(
                        item_target(Item::Note, nm@, self.current_loc_model()),
                    ) || nm@ == name@ && !old(fs)@.dom().contains(
                        item_target(Item::Note, name@, self.current_loc_model()),
                    ) && (forall|i: int|
                        0 <= i < self@.aliases.len() ==> (#[trigger] self@.aliases[i]).1
                            != name@)),
                    _ => false,
                },
            },
    {
        let resolved = match self.resolve_alias_or_name(name, fs) {
            Ok(n) => n,
            Err(e) => {
                return Err(e);
            },
        };
        let location = self.generate_location();
        let path = match item_store::open_note(fs, &resolved, &location) {
            Ok(p) => p,
            Err(e) => {
                return Err(e);
            },
        };
        fs.push_action(FsAction::OpenNote(path.clone()));
        proof {
            assert(final(fs).actions().drop_last() =~= old(fs).actions());
        }
        Ok(path)
    }

    /// The absolute path of the current folder, its opening recorded
    /// for the shell to hand to the system's file manager.
    pub fn open_folder(&self, fs: &mut Fs) -> (r: SysPath)
        requires
            self.wf(),
            self.ready(),
            old(fs).wf(),
        ensures
            final(fs).wf(),
            final(fs)@ == old(fs)@,
            r@ == self.current_loc_model(),
            pushed_one(old(fs).actions(), final(fs).actions()),
            (final(fs).actions().last() matches FsAction::OpenFolder(q) && q@ == r@),
    {
        let p = self.generate_location();
        fs.push_action(FsAction::OpenFolder(p.clone()));
        proof {
            assert(final(fs).actions().drop_last() =~= old(fs).actions());
        }
        p
    }

    /// The name would appear in the listing of the current folder.
    pub open spec fn listed(self, fs: Fs, filter: Option<VaultItem>, name: Seq<char>) -> bool {
        let cur = self.current_location();
        ||| ((filter is None || filter == Some(VaultItem::Folder)) && fs@.dom().contains(
            cur.push(name),
        ) && fs@[cur.push(name)])
        ||| ((filter is None || filter == Some(VaultItem::Note)) && name.len() > 0
            && fs@.dom().contains(cur.push(name + ".md"@)) && !fs@[cur.push(name + ".md"@)])
    }

    /// The names in the current folder: folders by name, notes by name
    /// without their extension, optionally only one kind.
    pub fn list(&self, item_type: &Option<VaultItem>, fs: &Fs) -> (r: Vec<String>)
        requires
            self.wf(),
            self.ready(),
            fs.wf(),
        ensures
            forall|i: int|
                0 <= i < r.deep_view().len() ==> self.listed(
                    *fs,
                    *item_type,
                    #[trigger] r.deep_view()[i],
                ),
            forall|name: Seq<char>|
                #[trigger] self.listed(*fs, *item_type, name) ==> r.deep_view().contains(name),
    {
        let location = self.generate_location();
        let entries = fs.children(&location);
        let want_folders = match item_type {
            Option::None => true,
            Option::Some(VaultItem::Folder) => true,
            Option::Some(VaultItem::Note) => false,
        };
        let want_notes = match item_type {
            Option::None => true,
            Option::Some(VaultItem::Note) => true,
            Option::Some(VaultItem::Folder) => false,
        };
        let mut out: Vec<String> = Vec::new();
        let mut i: usize = 0;
        while i < entries.len()
            invariant
                self.wf(),
                self.ready(),
                fs.wf(),
                i <= entries@.len(),
                want_folders == (item_type is None || *item_type == Some(VaultItem::Folder)),
                want_notes == (item_type is None || *item_type == Some(VaultItem::Note)),
                forall|a: int|
                    0 <= a < entries@.len() ==> fs@.dom().contains(
                        self.current_location().push((#[trigger] entries@[a]).0@),
                    ) && fs@[self.current_location().push(entries@[a].0@)] == entries@[a].1,
                forall|a: int|
                    0 <= a < out.deep_view().len() ==> self.listed(
                        *fs,
                        *item_type,
                        #[trigger] out.deep_view()[a],
                    ),
                forall|b: int|
                    0 <= b < i ==> ({
                        let nm = (#[trigger] entries@[b]).0@;
                        &&& (entries@[b].1 && want_folders ==> out.deep_view().contains(nm))
                        &&& (!entries@[b].1 && want_notes && has_md_ext(nm)
                            ==> out.deep_view().contains(md_stem(nm)))
                    }),
            decreases entries@.len() - i,
        {
            let ghost out0 = out.deep_view();
            let e = &entries[i];
            if e.1 {
                if want_folders {
                    out.push(e.0.clone());
                    proof {
                        assert(out.deep_view() =~= out0.push(e.0@));
                        assert(out.deep_view().contains(e.0@)) by {
                            assert(out.deep_view()[out.deep_view().len() - 1] == e.0@);
                        }
                    }
                }
            } else {
                if want_notes {
                    let s = e.0.as_str();
                    let l = s.unicode_len();
                    if l > 3 {
                        let stem = s.substring_char(0, l - 3).to_owned();
                        let ext = s.substring_char(l - 3, l).to_owned();
                        let md = String::from_str(".md");
                        if string_eq(&ext, &md) {
                            proof {
                                assert(has_md_ext(e.0@));
                                assert(stem@ == md_stem(e.0@));
                            }
                            out.push(stem);
                            proof {
                                assert(out.deep_view() =~= out0.push(md_stem(e.0@)));
                                assert(out.deep_view().contains(md_stem(e.0@))) by {
                                    assert(out.deep_view()[out.deep_view().len() - 1] == md_stem(
                                        e.0@,
                                    ));
                                }
                            }
                        } else {
                            proof {
                                assert(!has_md_ext(e.0@));
                            }
                        }
                    } else {
                        proof {
                            assert(!has_md_ext(e.0@));
                        }
                    }
                }
            }
            proof {
                assert forall|a: int|
                    0 <= a < out.deep_view().len() implies self.listed(
                    *fs,
                    *item_type,
                    #[trigger] out.deep_view()[a],
                ) by {
                    if a < out0.len() {
                        assert(out.deep_view()[a] == out0[a]);
                    } else {
                        let nm = entries@[i as int].0@;
                        if entries@[i as int].1 {
                            assert(self.listed(*fs, *item_type, nm));
                        } else {
                            assert(md_stem(nm) + ".md"@ =~= nm);
                            assert(self.listed(*fs, *item_type, md_stem(nm)));
                        }
                    }
                }
                assert forall|b: int|
                    0 <= b < out0.len() implies #[trigger] out.deep_view().contains(out0[b]) by {
                    assert(out.deep_view()[b] == out0[b]);
                }
            }
            i += 1;
        }
        proof {
            assert forall|name: Seq<char>|
                #[trigger] self.listed(*fs, *item_type, name) implies out.deep_view().contains(
                name,
            ) by {
                let cur = self.current_location();
                self.lemma_locs_normal();
                if (item_type is None || *item_type == Some(VaultItem::Folder))
                    && fs@.dom().contains(cur.push(name)) && fs@[cur.push(name)] {
                    let k = cur.push(name);
                    assert(is_seg_prefix(cur, k)) by {
                        assert(k.take(cur.len() as int) =~= cur);
                    }
                    let a = choose|a: int|
                        0 <= a < entries@.len() && (#[trigger] entries@[a]).0@ == k.last()
                            && entries@[a].1 == fs@[k];
                    assert(out.deep_view().contains(name));
                } else {
                    let k = cur.push(name + ".md"@);
                    assert(is_seg_prefix(cur, k)) by {
                        assert(k.take(cur.len() as int) =~= cur);
                    }
                    let a = choose|a: int|
                        0 <= a < entries@.len() && (#[trigger] entries@[a]).0@ == k.last()
                            && entries@[a].1 == fs@[k];
                    assert(has_md_ext(name + ".md"@) && md_stem(name + ".md"@) =~= name) by {
                        reveal_strlit(".md");
                        assert((name + ".md"@).len() == name.len() + 3);
                        assert((name + ".md"@).skip(name.len() as int) =~= ".md"@);
                        assert(md_stem(name + ".md"@) =~= name);
                    }
                    assert(out.deep_view().contains(name));
                }
            }
        }
        out
    }
}

/// The name ends in `.md`.
pub open spec fn has_md_ext(n: Seq<char>) -> bool {
    n.len() > 3 && n.skip(n.len() - 3) == ".md"@
}

/// The name with its `.md` ending removed.
pub open spec fn md_stem(n: Seq<char>) -> Seq<char> {
    n.take(n.len() - 3)
}

/// Filtering the aliases by key keeps only pairs taken unchanged from
/// the originals with another key, and keeps pairwise-distinct keys
/// and values pairwise distinct.
proof fn lemma_filter_props(s: Seq<(Seq<char>, Seq<char>)>, k: Seq<char>)
    requires
        forall|i: int, j: int| 0 <= i < j < s.len() ==> (#[trigger] s[i]).0 != (#[trigger] s[j]).0,
        forall|i: int, j: int| 0 <= i < j < s.len() ==> (#[trigger] s[i]).1 != (#[trigger] s[j]).1,
    ensures
        forall|a: int|
            0 <= a < aliases_without(s, k).len() ==> exists|b: int|
                0 <= b < s.len() && (#[trigger] aliases_without(s, k)[a]) == s[b] && s[b].0 != k,
        forall|i: int, j: int|
            0 <= i < j < aliases_without(s, k).len() ==> (#[trigger] aliases_without(s, k)[i]).0
                != (#[trigger] aliases_without(s, k)[j]).0 && aliases_without(s, k)[i].1
                != aliases_without(s, k)[j].1,
    decreases s.len(),
{
    reveal(Seq::filter);
    if s.len() > 0 {
        let s0 = s.drop_last();
        assert forall|i: int, j: int|
            0 <= i < j < s0.len() implies (#[trigger] s0[i]).0 != (#[trigger] s0[j]).0 && s0[i].1
                != s0[j].1 by {
            assert(s0[i] == s[i] && s0[j] == s[j]);
        }
        lemma_filter_props(s0, k);
        let f = aliases_without(s, k);
        let f0 = aliases_without(s0, k);
        if s.last().0 != k {
            assert(f =~= f0.push(s.last()));
            assert forall|a: int|
                0 <= a < f.len() implies exists|b: int|
                0 <= b < s.len() && (#[trigger] f[a]) == s[b] && s[b].0 != k by {
                if a < f0.len() {
                    assert(f[a] == f0[a]);
                    let b = choose|b: int|
                        0 <= b < s0.len() && (#[trigger] f0[a]) == s0[b] && s0[b].0 != k;
                    assert(s[b] == s0[b]);
                } else {
                    assert(f[a] == s[s.len() - 1]);
                }
            }
            assert forall|i: int, j: int|
                0 <= i < j < f.len() implies (#[trigger] f[i]).0 != (#[trigger] f[j]).0 && f[i].1
                    != f[j].1 by {
                if j < f.len() - 1 {
                    assert(f[i] == f0[i] && f[j] == f0[j]);
                } else {
                    assert(f[i] == f0[i]);
                    let b = choose|b: int|
                        0 <= b < s0.len() && (#[trigger] f0[i]) == s0[b] && s0[b].0 != k;
                    assert(s[b] == s0[b]);
                    assert(f[j] == s[s.len() - 1]);
                }
            }
        } else {
            assert(f =~= f0);
            assert forall|a: int|
                0 <= a < f.len() implies exists|b: int|
                0 <= b < s.len() && (#[trigger] f[a]) == s[b] && s[b].0 != k by {
                let b = choose|b: int|
                    0 <= b < s0.len() && (#[trigger] f0[a]) == s0[b] && s0[b].0 != k;
                assert(s[b] == s0[b]);
                assert(f[a] == f0[a]);
            }
        }
    }
}

/// The absolute path of the folder the vault's user stands in.
pub fn generate_location(vault: &Vault) -> (r: SysPath)
    requires
        vault.wf(),
        vault.ready(),
    ensures
        r@ == vault.current_loc_model(),
        segs_normal(r@.segs),
{
    vault.generate_location()
}

} // verus!
