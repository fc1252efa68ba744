//! Creating, removing, renaming and moving one item (note, folder or
//! vault directory) in the filesystem model.
//!
//! Every operation validates first and mutates only after every check
//! has passed: a failed operation leaves the model and the action log
//! exactly as they were.

use vstd::prelude::*;

use crate::enums::Item;
use crate::fs_model::{key_ok, subtree_moved, subtree_removed, Fs, FsAction};
use crate::output::Error;
use crate::paths::{
    check_item_name, is_seg_prefix, item_name_ok, seg_is_normal, segs_normal, string_eq, PathModel,
    SysPath,
};

verus! {

/// The filename an item uses on disk: notes get the `.md` extension.
pub open spec fn item_file_name(kind: Item, name: Seq<char>) -> Seq<char> {
    if kind is Note {
        name + ".md"@
    } else {
        name
    }
}

/// The path segments of the item named `name` inside `loc`.
pub open spec fn item_target(kind: Item, name: Seq<char>, loc: PathModel) -> Seq<Seq<char>> {
    loc.segs.push(item_file_name(kind, name))
}

/// Neither the model nor the pending operations changed.
pub open spec fn fs_unchanged(before: Fs, after: Fs) -> bool {
    after@ == before@ && after.actions() == before.actions()
}

/// Exactly one operation was appended to the log.
pub open spec fn pushed_one(before: Seq<FsAction>, after: Seq<FsAction>) -> bool {
    after.len() == before.len() + 1 && after.drop_last() =~= before
}

/// What holds after the item was created inside `loc`.
pub open spec fn create_ok_post(
    oldfs: Fs,
    newfs: Fs,
    kind: Item,
    name: Seq<char>,
    loc: PathModel,
) -> bool {
    let target = item_target(kind, name, loc);
    &&& item_name_ok(name)
    &&& !oldfs@.dom().contains(target)
    &&& loc.segs.len() > 0 ==> oldfs@.dom().contains(loc.segs) && oldfs@[loc.segs]
    &&& newfs@ == oldfs@.insert(target, kind.is_dir())
    &&& pushed_one(oldfs.actions(), newfs.actions())
    &&& kind.is_dir() ==> (newfs.actions().last() matches FsAction::CreateDir(q) && q@.segs
        == target)
    &&& !kind.is_dir() ==> (newfs.actions().last() matches FsAction::CreateFile(q) && q@.segs
        == target)
}

/// Why creating the item inside `loc` failed; nothing changed.
pub open spec fn create_err_post(
    oldfs: Fs,
    newfs: Fs,
    e: Error,
    kind: Item,
    name: Seq<char>,
    loc: PathModel,
) -> bool {
    let target = item_target(kind, name, loc);
    &&& fs_unchanged(oldfs, newfs)
    &&& match e {
        Error::InvalidName => !item_name_ok(name),
        Error::ItemAlreadyExists(k, n) => item_name_ok(name) && oldfs@.dom().contains(target) && k
            == kind && n@ == name,
        Error::PathNotFound => item_name_ok(name) && !oldfs@.dom().contains(target)
            && loc.segs.len() > 0 && !(oldfs@.dom().contains(loc.segs) && oldfs@[loc.segs]),
        _ => false,
    }
}

/// What holds after the item inside `loc` was removed.
pub open spec fn remove_ok_post(
    oldfs: Fs,
    newfs: Fs,
    kind: Item,
    name: Seq<char>,
    loc: PathModel,
) -> bool {
    let target = item_target(kind, name, loc);
    &&& item_name_ok(name)
    &&& oldfs@.dom().contains(target)
    &&& oldfs@[target] == kind.is_dir()
    &&& !kind.is_dir() ==> newfs@ == oldfs@.remove(target)
    &&& kind.is_dir() ==> newfs@ == subtree_removed(oldfs@, target)
    &&& pushed_one(oldfs.actions(), newfs.actions())
    &&& kind.is_dir() ==> (newfs.actions().last() matches FsAction::RemoveDirTree(q) && q@.segs
        == target)
    &&& !kind.is_dir() ==> (newfs.actions().last() matches FsAction::RemoveFile(q) && q@.segs
        == target)
}

/// Why removing the item inside `loc` failed; nothing changed.
pub open spec fn remove_err_post(
    oldfs: Fs,
    newfs: Fs,
    e: Error,
    kind: Item,
    name: Seq<char>,
    loc: PathModel,
) -> bool {
    let target = item_target(kind, name, loc);
    &&& fs_unchanged(oldfs, newfs)
    &&& match e {
        Error::InvalidName => !item_name_ok(name),
        Error::ItemNotFound(k, n) => item_name_ok(name) && !oldfs@.dom().contains(target) && k
            == kind && n@ == name,
        Error::Undefined(_) => item_name_ok(name) && oldfs@.dom().contains(target)
            && oldfs@[target] != kind.is_dir(),
        _ => false,
    }
}

/// What holds after the item inside `loc` was renamed.
pub open spec fn rename_ok_post(
    oldfs: Fs,
    newfs: Fs,
    kind: Item,
    name: Seq<char>,
    new_name: Seq<char>,
    loc: PathModel,
) -> bool {
    let from = item_target(kind, name, loc);
    let to = item_target(kind, new_name, loc);
    &&& name != new_name
    &&& item_name_ok(name) && item_name_ok(new_name)
    &&& oldfs@.dom().contains(from)
    &&& !oldfs@.dom().contains(to)
    &&& newfs@ == subtree_moved(oldfs@, from, to)
    &&& pushed_one(oldfs.actions(), newfs.actions())
    &&& (newfs.actions().last() matches FsAction::Rename { from: q1, to: q2 } && q1@.segs == from
        && q2@.segs == to)
}

/// Why renaming the item inside `loc` failed; nothing changed.
pub open spec fn rename_err_post(
    oldfs: Fs,
    newfs: Fs,
    e: Error,
    kind: Item,
    name: Seq<char>,
    new_name: Seq<char>,
    loc: PathModel,
) -> bool {
    let from = item_target(kind, name, loc);
    let to = item_target(kind, new_name, loc);
    &&& fs_unchanged(oldfs, newfs)
    &&& match e {
        Error::SameName => name == new_name,
        Error::InvalidName => name != new_name && !(item_name_ok(name) && item_name_ok(new_name)),
        Error::ItemNotFound(k, n) => name != new_name && item_name_ok(name) && item_name_ok(
            new_name,
        ) && !oldfs@.dom().contains(from) && k == kind && n@ == name,
        Error::ItemAlreadyExists(k, n) => name != new_name && item_name_ok(name) && item_name_ok(
            new_name,
        ) && oldfs@.dom().contains(from) && oldfs@.dom().contains(to) && k == kind && n@
            == new_name,
        _ => false,
    }
}

/// What holds after the item moved from `from_loc` into `to_loc`.
pub open spec fn move_ok_post(
    oldfs: Fs,
    newfs: Fs,
    kind: Item,
    name: Seq<char>,
    from_loc: PathModel,
    to_loc: PathModel,
) -> bool {
    let from = item_target(kind, name, from_loc);
    let to = item_target(kind, name, to_loc);
    &&& to_loc != from_loc
    &&& item_name_ok(name)
    &&& !oldfs@.dom().contains(to)
    &&& oldfs@.dom().contains(from)
    &&& to_loc.segs.len() > 0 ==> oldfs@.dom().contains(to_loc.segs) && oldfs@[to_loc.segs]
    &&& !is_seg_prefix(from, to)
    &&& newfs@ == subtree_moved(oldfs@, from, to)
    &&& pushed_one(oldfs.actions(), newfs.actions())
    &&& (newfs.actions().last() matches FsAction::MoveItem { from: q1, into: q2 } && q1@.segs
        == from && q2@.segs == to_loc.segs)
}

/// Why moving the item from `from_loc` into `to_loc` failed; nothing
/// changed.
pub open spec fn move_err_post(
    oldfs: Fs,
    newfs: Fs,
    e: Error,
    kind: Item,
    name: Seq<char>,
    from_loc: PathModel,
    to_loc: PathModel,
) -> bool {
    let from = item_target(kind, name, from_loc);
    let to = item_target(kind, name, to_loc);
    &&& fs_unchanged(oldfs, newfs)
    &&& match e {
        Error::SameLocation => to_loc == from_loc,
        Error::InvalidName => to_loc != from_loc && !item_name_ok(name),
        Error::ItemAlreadyExists(k, n) => to_loc != from_loc && item_name_ok(name)
            && oldfs@.dom().contains(to) && k == kind && n@ == name,
        Error::MoveError(_) => to_loc != from_loc && item_name_ok(name) && !oldfs@.dom().contains(
            to,
        ) && (!oldfs@.dom().contains(from) || (to_loc.segs.len() > 0 && !(oldfs@.dom().contains(
            to_loc.segs,
        ) && oldfs@[to_loc.segs])) || is_seg_prefix(from, to)),
        _ => false,
    }
}

/// A valid item name yields a valid file name.
pub proof fn lemma_file_name_normal(kind: Item, name: Seq<char>)
    requires
        item_name_ok(name),
    ensures
        seg_is_normal(item_file_name(kind, name)),
{
    reveal_strlit(".");
    reveal_strlit("..");
    reveal_strlit(".md");
    if kind is Note {
        assert(item_file_name(kind, name).len() == name.len() + 3);
    }
}

/// Different names yield different file names.
pub proof fn lemma_file_name_injective(kind: Item, a: Seq<char>, b: Seq<char>)
    requires
        item_file_name(kind, a) == item_file_name(kind, b),
    ensures
        a == b,
{
    if kind is Note {
        reveal_strlit(".md");
        assert((a + ".md"@).len() == a.len() + 3);
        assert((b + ".md"@).len() == b.len() + 3);
        assert(a.len() == b.len());
        assert(a =~= (a + ".md"@).take(a.len() as int));
        assert(b =~= (b + ".md"@).take(b.len() as int));
    }
}

/// The absolute path for the item named `name` inside `location`;
/// rejects names that cannot stand on a filesystem.
pub fn generate_item_path(item_type: &Item, name: &String, location: &SysPath) -> (r: Result<
    SysPath,
    Error,
>)
    ensures
        match r {
            Ok(p) => item_name_ok(name@) && p@.abs == location@.abs && p@.segs == item_target(
                *item_type,
                name@,
                location@,
            ),
            Err(e) => !item_name_ok(name@) && e is InvalidName,
        },
{
    if !check_item_name(name) {
        return Err(Error::InvalidName);
    }
    let file_name = match item_type {
        Item::Note => {
            let mut f = name.clone();
            f.append(".md");
            f
        },
        _ => name.clone(),
    };
    proof {
        lemma_file_name_normal(*item_type, name@);
    }
    Ok(location.child(&file_name))
}

/// Create the item: a new file for a note, a new directory otherwise.
/// Fails when the name is invalid, when something of that name already
/// exists, or when the target location is not a present directory --
/// and then changes nothing.
pub fn create_item(fs: &mut Fs, item_type: Item, name: &String, location: &SysPath) -> (r: Result<
    SysPath,
    Error,
>)
    requires
        old(fs).wf(),
        location@.abs,
        segs_normal(location@.segs),
    ensures
        final(fs).wf(),
        match r {
            Ok(p) => create_ok_post(*old(fs), *final(fs), item_type, name@, location@) && p@.abs
                && p@.segs == item_target(item_type, name@, location@),
            Err(e) => create_err_post(*old(fs), *final(fs), e, item_type, name@, location@),
        },
{
    let path = match generate_item_path(&item_type, name, location) {
        Ok(p) => p,
        Err(e) => {
            return Err(e);
        },
    };
    if let Some(_) = fs.lookup(&path) {
        return Err(Error::ItemAlreadyExists(item_type, name.clone()));
    }
    if location.seg_count() > 0 && !fs.is_dir(location) {
        return Err(Error::PathNotFound);
    }
    proof {
        lemma_file_name_normal(item_type, name@);
        assert(segs_normal(path@.segs)) by {
            assert(forall|i: int|
                0 <= i < location@.segs.len() ==> path@.segs[i] == location@.segs[i]);
            assert(path@.segs.last() == item_file_name(item_type, name@));
        }
        assert(key_ok(path@.segs));
        assert(path@.segs.drop_last() =~= location@.segs);
    }
    let dir = match item_type {
        Item::Note => false,
        _ => true,
    };
    let act = if dir {
        FsAction::CreateDir(path.clone())
    } else {
        FsAction::CreateFile(path.clone())
    };
    fs.insert_entry(&path, dir, act);
    proof {
        assert(final(fs).actions().drop_last() =~= old(fs).actions());
    }
    Ok(path)
}

/// Remove the item: a note is deleted as one file, a folder or vault
/// with everything below it. Fails, changing nothing, when the name is
/// invalid, the item is absent, or the entry is not of the item's kind.
pub fn remove_item(fs: &mut Fs, item_type: Item, name: &String, location: &SysPath) -> (r: Result<
    (),
    Error,
>)
    requires
        old(fs).wf(),
        location@.abs,
        segs_normal(location@.segs),
    ensures
        final(fs).wf(),
        match r {
            Ok(_) => remove_ok_post(*old(fs), *final(fs), item_type, name@, location@),
            Err(e) => remove_err_post(*old(fs), *final(fs), e, item_type, name@, location@),
        },
{
    let path = match generate_item_path(&item_type, name, location) {
        Ok(p) => p,
        Err(e) => {
            return Err(e);
        },
    };
    let dir = match item_type {
        Item::Note => false,
        _ => true,
    };
    match fs.lookup(&path) {
        None => Err(Error::ItemNotFound(item_type, name.clone())),
        Some(d) if d != dir => Err(
            Error::Undefined(String::from_str("the entry on disk is not of that kind")),
        ),
        Some(_) => {
            if dir {
                fs.remove_subtree(&path, FsAction::RemoveDirTree(path.clone()));
            } else {
                fs.remove_file_entry(&path, FsAction::RemoveFile(path.clone()));
            }
            proof {
                assert(final(fs).actions().drop_last() =~= old(fs).actions());
            }
            Ok(())
        },
    }
}

/// Rename the item within its location. Renaming to the item's own
/// name fails with `SameName` and performs no operation at all; a
/// taken name fails with `ItemAlreadyExists`, leaving both entries.
pub fn rename_item(
    fs: &mut Fs,
    item_type: Item,
    name: &String,
    new_name: &String,
    location: &SysPath,
) -> (r: Result<SysPath, Error>)
    requires
        old(fs).wf(),
        location@.abs,
        segs_normal(location@.segs),
    ensures
        final(fs).wf(),
        match r {
            Ok(p) => rename_ok_post(*old(fs), *final(fs), item_type, name@, new_name@, location@)
                && p@.abs && p@.segs == item_target(item_type, new_name@, location@),
            Err(e) => rename_err_post(
                *old(fs),
                *final(fs),
                e,
                item_type,
                name@,
                new_name@,
                location@,
            ),
        },
{
    if string_eq(name, new_name) {
        return Err(Error::SameName);
    }
    let original_path = match generate_item_path(&item_type, name, location) {
        Ok(p) => p,
        Err(e) => {
            return Err(e);
        },
    };
    let new_path = match generate_item_path(&item_type, new_name, location) {
        Ok(p) => p,
        Err(e) => {
            return Err(e);
        },
    };
    if let None = fs.lookup(&original_path) {
        return Err(Error::ItemNotFound(item_type, name.clone()));
    }
    if let Some(_) = fs.lookup(&new_path) {
        return Err(Error::ItemAlreadyExists(item_type, new_name.clone()));
    }
    proof {
        lemma_file_name_normal(item_type, name@);
        lemma_file_name_normal(item_type, new_name@);
        let from = original_path@.segs;
        let to = new_path@.segs;
        assert(segs_normal(to)) by {
            assert(forall|i: int| 0 <= i < location@.segs.len() ==> to[i] == location@.segs[i]);
            assert(to.last() == item_file_name(item_type, new_name@));
        }
        assert(key_ok(to));
        assert(!is_seg_prefix(from, to)) by {
            if is_seg_prefix(from, to) {
                assert(to.take(from.len() as int) =~= to);
                assert(from.last() == to.last());
                lemma_file_name_injective(item_type, name@, new_name@);
            }
        }
        if to.len() > 1 {
            fs.lemma_wf_tree();
            assert(fs@.dom().contains(from));
            assert(from.drop_last() =~= location@.segs);
            assert(to.drop_last() =~= location@.segs);
        }
    }
    fs.move_subtree(
        &original_path,
        &new_path,
        FsAction::Rename { from: original_path.clone(), to: new_path.clone() },
    );
    proof {
        assert(final(fs).actions().drop_last() =~= old(fs).actions());
    }
    Ok(new_path)
}

/// Move the item from one location into another. The destination must
/// differ from the source, must not already hold an item of that name,
/// must exist, and must not lie inside the moved item itself; every
/// check happens before anything moves.
pub fn move_item(
    fs: &mut Fs,
    item_type: Item,
    name: &String,
    original_location: &SysPath,
    new_location: &SysPath,
) -> (r: Result<SysPath, Error>)
    requires
        old(fs).wf(),
        original_location@.abs,
        segs_normal(original_location@.segs),
        new_location@.abs,
        segs_normal(new_location@.segs),
    ensures
        final(fs).wf(),
        match r {
            Ok(p) => move_ok_post(
                *old(fs),
                *final(fs),
                item_type,
                name@,
                original_location@,
                new_location@,
            ) && p@.abs && p@.segs == item_target(item_type, name@, new_location@),
            Err(e) => move_err_post(
                *old(fs),
                *final(fs),
                e,
                item_type,
                name@,
                original_location@,
                new_location@,
            ),
        },
{
    if new_location.equals(original_location) {
        return Err(Error::SameLocation);
    }
    let new_path = match generate_item_path(&item_type, name, new_location) {
        Ok(p) => p,
        Err(e) => {
            return Err(e);
        },
    };
    if let Some(_) = fs.lookup(&new_path) {
        return Err(Error::ItemAlreadyExists(item_type, name.clone()));
    }
    let original_path = match generate_item_path(&item_type, name, original_location) {
        Ok(p) => p,
        Err(e) => {
            return Err(e);
        },
    };
    if let None = fs.lookup(&original_path) {
        return Err(Error::MoveError(String::from_str("the item to move does not exist")));
    }
    if new_location.seg_count() > 0 && !fs.is_dir(new_location) {
        return Err(Error::MoveError(String::from_str("the new location does not exist")));
    }
    if new_path.starts_with(&original_path) {
        return Err(
            Error::MoveError(String::from_str("the new location lies inside the item itself")),
        );
    }
    proof {
        lemma_file_name_normal(item_type, name@);
        let to = new_path@.segs;
        assert(segs_normal(to)) by {
            assert(forall|i: int|
                0 <= i < new_location@.segs.len() ==> to[i] == new_location@.segs[i]);
            assert(to.last() == item_file_name(item_type, name@));
        }
        assert(key_ok(to));
        assert(to.drop_last() =~= new_location@.segs);
    }
    fs.move_subtree(
        &original_path,
        &new_path,
        FsAction::MoveItem { from: original_path.clone(), into: new_location.clone() },
    );
    proof {
        assert(final(fs).actions().drop_last() =~= old(fs).actions());
    }
    Ok(new_path)
}

/// The absolute path of the note, checked to exist, ready to be handed
/// to an editor.
pub fn open_note(fs: &Fs, name: &String, location: &SysPath) -> (r: Result<SysPath, Error>)
    requires
        fs.wf(),
        location@.abs,
        segs_normal(location@.segs),
    ensures
        ({
            let target = item_target(Item::Note, name@, location@);
            match r {
                Ok(p) => item_name_ok(name@) && p@.abs && p@.segs == target
                    && fs@.dom().contains(target),
                Err(e) => match e {
                    Error::InvalidName => !item_name_ok(name@),
                    Error::ItemNotFound(k, n) => item_name_ok(name@) && !fs@.dom().contains(target)
                        && k is Note && n@ == name@,
                    _ => false,
                },
            }
        }),
{
    let path = match generate_item_path(&Item::Note, name, location) {
        Ok(p) => p,
        Err(e) => {
            return Err(e);
        },
    };
    if let None = fs.lookup(&path) {
        return Err(Error::ItemNotFound(Item::Note, name.clone()));
    }
    Ok(path)
}

} // verus!
