use jot::app::{App, Args, Command};
use jot::config::Config;
use jot::data::Data;
use jot::enums::{ConfigType, Item, VaultItem};
use jot::fs_model::{Fs, FsAction};
use jot::item_store;
use jot::output::{Error, Message};
use jot::paths::{check_item_name, join_paths, process_path, valid_name, SysPath};
use jot::vault::{generate_location, Vault};
use jot::vaults::Vaults;

fn apath(segs: &[&str]) -> SysPath {
    let mut p = SysPath::new(true);
    for s in segs {
        p.push(&s.to_string());
    }
    p
}

fn rpath(segs: &[&str]) -> SysPath {
    let mut p = SysPath::new(false);
    for s in segs {
        p.push(&s.to_string());
    }
    p
}

fn path_is(p: &SysPath, abs: bool, segs: &[&str]) -> bool {
    p.is_absolute() == abs && p.segments().len() == segs.len()
        && p.segments().iter().zip(segs.iter()).all(|(a, b)| a == b)
}

/// A filesystem model with `/tmp/vaults` already present.
fn seeded_fs() -> Fs {
    let mut fs = Fs::new();
    assert!(fs.record_dir(&apath(&["tmp"])));
    assert!(fs.record_dir(&apath(&["tmp", "vaults"])));
    fs
}

/// A registry with the vault `work` created at `/tmp/vaults`, entered.
fn entered_work(fs: &mut Fs) -> Vaults {
    let mut vs = Vaults::new(Data::new(), Vec::new());
    vs.create_vault(&"work".to_string(), &apath(&["tmp", "vaults"]), fs).unwrap();
    vs.enter_vault(&"work".to_string()).unwrap();
    vs
}

#[test]
fn normalize_collapses_dots() {
    let p = apath(&["a", "b", "..", ".", "c"]);
    let n = process_path(&p);
    assert!(path_is(&n, true, &["a", "c"]));
}

#[test]
fn normalize_stops_at_root() {
    let p = apath(&["a", "..", "..", "etc"]);
    let n = process_path(&p);
    assert!(path_is(&n, true, &["etc"]));
}

#[test]
fn join_paths_concatenates() {
    let joined = join_paths(&vec![apath(&["a"]), rpath(&["b", "c"])]);
    assert!(path_is(&joined, true, &["a", "b", "c"]));
}

#[test]
fn join_absolute_replaces() {
    let joined = rpath(&["x"]).join(&apath(&["y"]));
    assert!(path_is(&joined, true, &["y"]));
}

#[test]
fn starts_with_and_strip() {
    let root = apath(&["a", "b"]);
    let deep = apath(&["a", "b", "c", "d"]);
    assert!(deep.starts_with(&root));
    assert!(!root.starts_with(&deep));
    assert!(!rpath(&["a", "b"]).starts_with(&root));
    let rel = deep.strip_prefix(&root);
    assert!(path_is(&rel, false, &["c", "d"]));
}

#[test]
fn name_validity() {
    assert!(valid_name(&"notes 2024".to_string()));
    assert!(!valid_name(&"a/b".to_string()));
    assert!(!valid_name(&"a?b".to_string()));
    assert!(!valid_name(&"a*b".to_string()));
    assert!(check_item_name(&"a.b".to_string()));
    assert!(!check_item_name(&"".to_string()));
    assert!(!check_item_name(&".".to_string()));
    assert!(!check_item_name(&"..".to_string()));
}

#[test]
fn record_and_lookup() {
    let mut fs = seeded_fs();
    assert_eq!(fs.lookup(&apath(&["tmp", "vaults"])), Some(true));
    assert_eq!(fs.lookup(&apath(&["tmp", "other"])), None);
    // a directory cannot be recorded below a missing parent
    assert!(!fs.record_dir(&apath(&["nowhere", "sub"])));
    assert!(fs.record_file(&apath(&["tmp", "stray.md"])));
    assert_eq!(fs.lookup(&apath(&["tmp", "stray.md"])), Some(false));
}

#[test]
fn create_note_and_folder() {
    let mut fs = seeded_fs();
    let loc = apath(&["tmp", "vaults"]);
    let p = item_store::create_item(&mut fs, Item::Note, &"todo".to_string(), &loc).unwrap();
    assert!(path_is(&p, true, &["tmp", "vaults", "todo.md"]));
    assert_eq!(fs.lookup(&p), Some(false));
    let d = item_store::create_item(&mut fs, Item::Folder, &"proj".to_string(), &loc).unwrap();
    assert_eq!(fs.lookup(&d), Some(true));
    assert_eq!(fs.pending_actions().len(), 2);
    assert!(matches!(fs.pending_actions()[0], FsAction::CreateFile(_)));
    assert!(matches!(fs.pending_actions()[1], FsAction::CreateDir(_)));
}

#[test]
fn create_rejects_bad_name_and_missing_parent() {
    let mut fs = seeded_fs();
    let r = item_store::create_item(&mut fs, Item::Note, &"a?b".to_string(), &apath(&["tmp"]));
    assert!(matches!(r, Err(Error::InvalidName)));
    let r2 = item_store::create_item(
        &mut fs,
        Item::Note,
        &"x".to_string(),
        &apath(&["tmp", "missing"]),
    );
    assert!(matches!(r2, Err(Error::PathNotFound)));
    assert_eq!(fs.pending_actions().len(), 0);
}

#[test]
fn no_accidental_overwrite() {
    // an existing item of the same kind and name stays untouched
    let mut fs = seeded_fs();
    let loc = apath(&["tmp", "vaults"]);
    item_store::create_item(&mut fs, Item::Note, &"todo".to_string(), &loc).unwrap();
    let actions_before = fs.pending_actions().len();
    let r = item_store::create_item(&mut fs, Item::Note, &"todo".to_string(), &loc);
    match r {
        Err(Error::ItemAlreadyExists(Item::Note, n)) => assert_eq!(n, "todo"),
        other => panic!("expected ItemAlreadyExists, got {:?}", other),
    }
    assert_eq!(fs.lookup(&apath(&["tmp", "vaults", "todo.md"])), Some(false));
    assert_eq!(fs.pending_actions().len(), actions_before);
}

#[test]
fn rename_to_same_name_does_nothing() {
    // the guard fires before any filesystem operation is recorded
    let mut fs = seeded_fs();
    let loc = apath(&["tmp", "vaults"]);
    item_store::create_item(&mut fs, Item::Note, &"a".to_string(), &loc).unwrap();
    let actions_before = fs.pending_actions().len();
    let r = item_store::rename_item(&mut fs, Item::Note, &"a".to_string(), &"a".to_string(), &loc);
    assert!(matches!(r, Err(Error::SameName)));
    assert_eq!(fs.pending_actions().len(), actions_before);
    assert_eq!(fs.lookup(&apath(&["tmp", "vaults", "a.md"])), Some(false));
}

#[test]
fn rename_moves_the_entry() {
    let mut fs = seeded_fs();
    let loc = apath(&["tmp", "vaults"]);
    item_store::create_item(&mut fs, Item::Note, &"a".to_string(), &loc).unwrap();
    let p = item_store::rename_item(&mut fs, Item::Note, &"a".to_string(), &"b".to_string(), &loc)
        .unwrap();
    assert!(path_is(&p, true, &["tmp", "vaults", "b.md"]));
    assert_eq!(fs.lookup(&apath(&["tmp", "vaults", "a.md"])), None);
    assert_eq!(fs.lookup(&p), Some(false));
}

#[test]
fn rename_refuses_taken_name() {
    let mut fs = seeded_fs();
    let loc = apath(&["tmp", "vaults"]);
    item_store::create_item(&mut fs, Item::Note, &"a".to_string(), &loc).unwrap();
    item_store::create_item(&mut fs, Item::Note, &"b".to_string(), &loc).unwrap();
    let r = item_store::rename_item(&mut fs, Item::Note, &"a".to_string(), &"b".to_string(), &loc);
    assert!(matches!(r, Err(Error::ItemAlreadyExists(Item::Note, _))));
    assert_eq!(fs.lookup(&apath(&["tmp", "vaults", "a.md"])), Some(false));
    assert_eq!(fs.lookup(&apath(&["tmp", "vaults", "b.md"])), Some(false));
}

#[test]
fn rename_missing_item() {
    let mut fs = seeded_fs();
    let loc = apath(&["tmp", "vaults"]);
    let r = item_store::rename_item(&mut fs, Item::Note, &"a".to_string(), &"b".to_string(), &loc);
    assert!(matches!(r, Err(Error::ItemNotFound(Item::Note, _))));
}

#[test]
fn move_collision_leaves_both_items() {
    let mut fs = seeded_fs();
    let src = apath(&["tmp", "vaults"]);
    let dst = apath(&["tmp", "vaults", "proj"]);
    item_store::create_item(&mut fs, Item::Folder, &"proj".to_string(), &src).unwrap();
    item_store::create_item(&mut fs, Item::Note, &"x".to_string(), &src).unwrap();
    item_store::create_item(&mut fs, Item::Note, &"x".to_string(), &dst).unwrap();
    let actions_before = fs.pending_actions().len();
    let r = item_store::move_item(&mut fs, Item::Note, &"x".to_string(), &src, &dst);
    assert!(matches!(r, Err(Error::ItemAlreadyExists(Item::Note, _))));
    assert_eq!(fs.lookup(&apath(&["tmp", "vaults", "x.md"])), Some(false));
    assert_eq!(fs.lookup(&apath(&["tmp", "vaults", "proj", "x.md"])), Some(false));
    assert_eq!(fs.pending_actions().len(), actions_before);
}

#[test]
fn move_whole_subtree() {
    let mut fs = seeded_fs();
    let root = apath(&["tmp", "vaults"]);
    item_store::create_item(&mut fs, Item::Folder, &"a".to_string(), &root).unwrap();
    item_store::create_item(&mut fs, Item::Folder, &"b".to_string(), &root).unwrap();
    item_store::create_item(&mut fs, Item::Note, &"n".to_string(), &apath(&["tmp", "vaults", "a"]))
        .unwrap();
    let moved = item_store::move_item(
        &mut fs,
        Item::Folder,
        &"a".to_string(),
        &root,
        &apath(&["tmp", "vaults", "b"]),
    )
    .unwrap();
    assert!(path_is(&moved, true, &["tmp", "vaults", "b", "a"]));
    assert_eq!(fs.lookup(&apath(&["tmp", "vaults", "a"])), None);
    assert_eq!(fs.lookup(&apath(&["tmp", "vaults", "a", "n.md"])), None);
    assert_eq!(fs.lookup(&apath(&["tmp", "vaults", "b", "a"])), Some(true));
    assert_eq!(fs.lookup(&apath(&["tmp", "vaults", "b", "a", "n.md"])), Some(false));
}

#[test]
fn move_same_location_and_into_itself() {
    let mut fs = seeded_fs();
    let root = apath(&["tmp", "vaults"]);
    item_store::create_item(&mut fs, Item::Folder, &"a".to_string(), &root).unwrap();
    let r = item_store::move_item(&mut fs, Item::Folder, &"a".to_string(), &root, &root);
    assert!(matches!(r, Err(Error::SameLocation)));
    let inside = apath(&["tmp", "vaults", "a"]);
    let r2 = item_store::move_item(&mut fs, Item::Folder, &"a".to_string(), &root, &inside);
    assert!(matches!(r2, Err(Error::MoveError(_))));
}

#[test]
fn remove_note_and_folder_tree() {
    let mut fs = seeded_fs();
    let root = apath(&["tmp", "vaults"]);
    item_store::create_item(&mut fs, Item::Folder, &"a".to_string(), &root).unwrap();
    item_store::create_item(&mut fs, Item::Note, &"n".to_string(), &apath(&["tmp", "vaults", "a"]))
        .unwrap();
    item_store::create_item(&mut fs, Item::Note, &"top".to_string(), &root).unwrap();
    item_store::remove_item(&mut fs, Item::Note, &"top".to_string(), &root).unwrap();
    assert_eq!(fs.lookup(&apath(&["tmp", "vaults", "top.md"])), None);
    item_store::remove_item(&mut fs, Item::Folder, &"a".to_string(), &root).unwrap();
    assert_eq!(fs.lookup(&apath(&["tmp", "vaults", "a"])), None);
    assert_eq!(fs.lookup(&apath(&["tmp", "vaults", "a", "n.md"])), None);
    let r = item_store::remove_item(&mut fs, Item::Note, &"top".to_string(), &root);
    assert!(matches!(r, Err(Error::ItemNotFound(Item::Note, _))));
}

#[test]
fn remove_wrong_kind_is_undefined() {
    let mut fs = seeded_fs();
    let root = apath(&["tmp", "vaults"]);
    // a directory that carries a note-like name
    item_store::create_item(&mut fs, Item::Folder, &"x.md".to_string(), &root).unwrap();
    let r = item_store::remove_item(&mut fs, Item::Note, &"x".to_string(), &root);
    assert!(matches!(r, Err(Error::Undefined(_))));
}

#[test]
fn vault_metadata_paths() {
    let mut v = Vault::default();
    v.set_name("work".to_string());
    v.set_location(apath(&["tmp", "vaults"]));
    assert_eq!(v.get_name(), "work");
    assert!(path_is(v.get_location(), true, &["tmp", "vaults"]));
    assert!(path_is(&generate_location(&v), true, &["tmp", "vaults", "work"]));
    assert!(path_is(&v.data_path(), true, &["tmp", "vaults", "work", ".jot", "data"]));
    let (n, l, f) = v.get_path_data();
    assert_eq!(n, "work");
    assert!(l.is_absolute());
    assert_eq!(f.segments().len(), 0);
}

#[test]
fn change_folder_out_of_bounds() {
    // leaving the vault root lexically must be refused
    let mut fs = seeded_fs();
    let mut vs = entered_work(&mut fs);
    let cur = vs.mut_current().unwrap();
    let r = cur.change_folder(&rpath(&["..", "..", "etc"]), &fs);
    assert!(matches!(r, Err(Error::OutOfBounds)));
    assert_eq!(cur.get_folder().segments().len(), 0);
}

#[test]
fn change_folder_rejects_missing_and_same() {
    let mut fs = seeded_fs();
    let mut vs = entered_work(&mut fs);
    {
        let cur = vs.mut_current().unwrap();
        let r = cur.change_folder(&rpath(&["ghost"]), &fs);
        assert!(matches!(r, Err(Error::PathNotFound)));
        let r2 = cur.change_folder(&rpath(&["."]), &fs);
        assert!(matches!(r2, Err(Error::SameLocation)));
    }
}

#[test]
fn scenario_enter_create_list_open() {
    // create the vault, enter it, write a note, see it, open it
    let mut fs = seeded_fs();
    let mut vs = Vaults::new(Data::new(), Vec::new());
    vs.create_vault(&"work".to_string(), &apath(&["tmp", "vaults"]), &mut fs).unwrap();
    vs.enter_vault(&"work".to_string()).unwrap();
    let cur = vs.ref_current().unwrap();
    cur.create_vault_item(VaultItem::Note, &"todo".to_string(), &mut fs).unwrap();
    let listing = cur.list(&None, &fs);
    assert!(listing.iter().any(|n| n == "todo"));
    let p = cur.open_note(&"todo".to_string(), &mut fs).unwrap();
    assert!(path_is(&p, true, &["tmp", "vaults", "work", "todo.md"]));
    match fs.pending_actions().last() {
        Some(FsAction::OpenNote(q)) => assert!(q.equals(&p)),
        other => panic!("expected an OpenNote action, got {:?}", other),
    }
}

#[test]
fn scenario_subfolder_move() {
    // make a folder, stand in it, write a note, step back out, and
    // move the note into the folder by its root-relative name
    let mut fs = seeded_fs();
    let mut vs = entered_work(&mut fs);
    {
        let cur = vs.ref_current().unwrap();
        cur.create_vault_item(VaultItem::Folder, &"proj".to_string(), &mut fs).unwrap();
    }
    let cur = vs.mut_current().unwrap();
    cur.change_folder(&rpath(&["proj"]), &fs).unwrap();
    assert!(path_is(cur.get_folder(), false, &["proj"]));
    cur.change_folder(&rpath(&[".."]), &fs).unwrap();
    assert_eq!(cur.get_folder().segments().len(), 0);
    cur.create_vault_item(VaultItem::Note, &"n1".to_string(), &mut fs).unwrap();
    // moving from the vault root: the plain path `proj` stays in
    // bounds, so the note lands inside the folder
    cur.move_vault_item(VaultItem::Note, &"n1".to_string(), &rpath(&["proj"]), &mut fs).unwrap();
    assert_eq!(fs.lookup(&apath(&["tmp", "vaults", "work", "n1.md"])), None);
    assert_eq!(
        fs.lookup(&apath(&["tmp", "vaults", "work", "proj", "n1.md"])),
        Some(false)
    );
}

#[test]
fn scenario_rename_current_vault() {
    // the registry pointer, the directory, and the metadata follow
    let mut fs = seeded_fs();
    let mut vs = entered_work(&mut fs);
    vs.rename_vault(&"work".to_string(), &"job".to_string(), &mut fs).unwrap();
    assert_eq!(vs.registry().get_current_vault(), Some(&"job".to_string()));
    assert_eq!(fs.lookup(&apath(&["tmp", "vaults", "work"])), None);
    assert_eq!(fs.lookup(&apath(&["tmp", "vaults", "job"])), Some(true));
    let meta = vs.find_meta(&"job".to_string()).unwrap();
    assert_eq!(meta.get_name(), "job");
}

#[test]
fn scenario_vmove_collision() {
    // moving a note into a vault that already holds one of that name
    // fails and leaves both untouched
    let mut fs = seeded_fs();
    let mut vs = entered_work(&mut fs);
    vs.create_vault(&"personal".to_string(), &apath(&["tmp", "vaults"]), &mut fs).unwrap();
    {
        let cur = vs.ref_current().unwrap();
        cur.create_vault_item(VaultItem::Note, &"n1".to_string(), &mut fs).unwrap();
    }
    item_store::create_item(
        &mut fs,
        Item::Note,
        &"n1".to_string(),
        &apath(&["tmp", "vaults", "personal"]),
    )
    .unwrap();
    let r = vs.move_to_vault(&VaultItem::Note, &"n1".to_string(), &"personal".to_string(), &mut fs);
    assert!(matches!(r, Err(Error::ItemAlreadyExists(Item::Note, _))));
    assert_eq!(fs.lookup(&apath(&["tmp", "vaults", "work", "n1.md"])), Some(false));
    assert_eq!(fs.lookup(&apath(&["tmp", "vaults", "personal", "n1.md"])), Some(false));
}

#[test]
fn vmove_to_own_vault_is_refused() {
    let mut fs = seeded_fs();
    let vs = entered_work(&mut fs);
    let r = vs.move_to_vault(&VaultItem::Note, &"n1".to_string(), &"work".to_string(), &mut fs);
    assert!(matches!(r, Err(Error::SameLocation)));
}

#[test]
fn vmove_to_unknown_vault() {
    let mut fs = seeded_fs();
    let vs = entered_work(&mut fs);
    let r = vs.move_to_vault(&VaultItem::Note, &"n1".to_string(), &"ghost".to_string(), &mut fs);
    match r {
        Err(Error::VaultNotFound(n)) => assert_eq!(n, "ghost"),
        other => panic!("expected VaultNotFound, got {:?}", other),
    }
}

#[test]
fn registry_and_metadata_agree_after_create() {
    // the registry's recorded location and the vault's own metadata
    // must tell the same story
    let mut fs = Fs::new();
    assert!(fs.record_dir(&apath(&["abs"])));
    assert!(fs.record_dir(&apath(&["abs", "path"])));
    let mut vs = Vaults::new(Data::new(), Vec::new());
    vs.create_vault(&"v1".to_string(), &apath(&["abs", "path"]), &mut fs).unwrap();
    let loc = vs.registry().get_vault_location(&"v1".to_string()).unwrap().clone();
    assert!(path_is(&loc, true, &["abs", "path"]));
    let meta = vs.find_meta(&"v1".to_string()).unwrap();
    assert_eq!(meta.get_name(), "v1");
    assert!(meta.get_location().equals(&loc));
    assert_eq!(fs.lookup(&apath(&["abs", "path", "v1"])), Some(true));
}

#[test]
fn create_vault_errors() {
    let mut fs = seeded_fs();
    let mut vs = Vaults::new(Data::new(), Vec::new());
    let r = vs.create_vault(&"v".to_string(), &rpath(&["rel"]), &mut fs);
    assert!(matches!(r, Err(Error::PathNotAbsolute)));
    let r2 = vs.create_vault(&"v".to_string(), &apath(&["no", "where"]), &mut fs);
    assert!(matches!(r2, Err(Error::PathNotFound)));
    vs.create_vault(&"v".to_string(), &apath(&["tmp", "vaults"]), &mut fs).unwrap();
    let r3 = vs.create_vault(&"v".to_string(), &apath(&["tmp", "vaults"]), &mut fs);
    match r3 {
        Err(Error::VaultAlreadyExists(n)) => assert_eq!(n, "v"),
        other => panic!("expected VaultAlreadyExists, got {:?}", other),
    }
}

#[test]
fn enter_and_leave_vaults() {
    let mut fs = seeded_fs();
    let mut vs = Vaults::new(Data::new(), Vec::new());
    assert!(matches!(vs.ref_current(), Err(Error::NotInsideVault)));
    vs.create_vault(&"a".to_string(), &apath(&["tmp", "vaults"]), &mut fs).unwrap();
    let r = vs.enter_vault(&"ghost".to_string());
    assert!(matches!(r, Err(Error::VaultNotFound(_))));
    vs.enter_vault(&"a".to_string()).unwrap();
    let r2 = vs.enter_vault(&"a".to_string());
    match r2 {
        Err(Error::AlreadyInVault(n)) => assert_eq!(n, "a"),
        other => panic!("expected AlreadyInVault, got {:?}", other),
    }
}

#[test]
fn remove_vault_clears_current() {
    let mut fs = seeded_fs();
    let mut vs = entered_work(&mut fs);
    vs.remove_vault(&"work".to_string(), &mut fs).unwrap();
    assert_eq!(vs.registry().get_current_vault(), None);
    assert_eq!(fs.lookup(&apath(&["tmp", "vaults", "work"])), None);
    assert!(matches!(vs.ref_current(), Err(Error::NotInsideVault)));
}

#[test]
fn move_vault_updates_everything() {
    let mut fs = seeded_fs();
    let mut vs = entered_work(&mut fs);
    assert!(fs.record_dir(&apath(&["tmp", "elsewhere"])));
    vs.move_vault(&"work".to_string(), &apath(&["tmp", "elsewhere"]), &mut fs).unwrap();
    assert_eq!(fs.lookup(&apath(&["tmp", "vaults", "work"])), None);
    assert_eq!(fs.lookup(&apath(&["tmp", "elsewhere", "work"])), Some(true));
    let loc = vs.registry().get_vault_location(&"work".to_string()).unwrap();
    assert!(path_is(loc, true, &["tmp", "elsewhere"]));
    let meta = vs.find_meta(&"work".to_string()).unwrap();
    assert!(path_is(meta.get_location(), true, &["tmp", "elsewhere"]));
    let r = vs.move_vault(&"work".to_string(), &apath(&["tmp", "elsewhere"]), &mut fs);
    assert!(matches!(r, Err(Error::SameLocation)));
}

#[test]
fn aliases_must_not_collide() {
    // an alias equal to a note's filename, or to another note's
    // alias, is refused; distinct aliases both resolve
    let mut fs = seeded_fs();
    let mut vs = entered_work(&mut fs);
    {
        let cur = vs.ref_current().unwrap();
        cur.create_vault_item(VaultItem::Note, &"alpha".to_string(), &mut fs).unwrap();
        cur.create_vault_item(VaultItem::Note, &"beta".to_string(), &mut fs).unwrap();
    }
    let cur = vs.mut_current().unwrap();
    let r = cur.set_alias(&"alpha".to_string(), &"beta".to_string(), &fs);
    assert!(matches!(r, Err(Error::InvalidName)));
    cur.set_alias(&"alpha".to_string(), &"first".to_string(), &fs).unwrap();
    let r2 = cur.set_alias(&"beta".to_string(), &"first".to_string(), &fs);
    assert!(matches!(r2, Err(Error::InvalidName)));
    cur.set_alias(&"beta".to_string(), &"second".to_string(), &fs).unwrap();
    assert_eq!(cur.resolve_alias_or_name(&"first".to_string(), &fs).unwrap(), "alpha");
    assert_eq!(cur.resolve_alias_or_name(&"second".to_string(), &fs).unwrap(), "beta");
    assert_eq!(cur.resolve_alias_or_name(&"alpha".to_string(), &fs).unwrap(), "alpha");
}

#[test]
fn alias_removal() {
    let mut fs = seeded_fs();
    let mut vs = entered_work(&mut fs);
    {
        let cur = vs.ref_current().unwrap();
        cur.create_vault_item(VaultItem::Note, &"alpha".to_string(), &mut fs).unwrap();
    }
    let cur = vs.mut_current().unwrap();
    let r = cur.remove_alias(&"alpha".to_string());
    assert!(matches!(r, Err(Error::AliasNotFound)));
    cur.set_alias(&"alpha".to_string(), &"a1".to_string(), &fs).unwrap();
    assert_eq!(cur.remove_alias(&"alpha".to_string()).unwrap(), "a1");
    let r2 = cur.resolve_alias_or_name(&"a1".to_string(), &fs);
    assert!(matches!(r2, Err(Error::ItemNotFound(Item::Note, _))));
}

#[test]
fn open_note_through_alias() {
    let mut fs = seeded_fs();
    let mut vs = entered_work(&mut fs);
    {
        let cur = vs.ref_current().unwrap();
        cur.create_vault_item(VaultItem::Note, &"alpha".to_string(), &mut fs).unwrap();
    }
    {
        let cur = vs.mut_current().unwrap();
        cur.set_alias(&"alpha".to_string(), &"a1".to_string(), &fs).unwrap();
    }
    let cur = vs.ref_current().unwrap();
    let p = cur.open_note(&"a1".to_string(), &mut fs).unwrap();
    assert!(path_is(&p, true, &["tmp", "vaults", "work", "alpha.md"]));
    let r = cur.open_note(&"ghost".to_string(), &mut fs);
    assert!(matches!(r, Err(Error::ItemNotFound(Item::Note, _))));
}

#[test]
fn listing_filters_kinds() {
    let mut fs = seeded_fs();
    let vs = entered_work(&mut fs);
    let cur = vs.ref_current().unwrap();
    cur.create_vault_item(VaultItem::Note, &"todo".to_string(), &mut fs).unwrap();
    cur.create_vault_item(VaultItem::Folder, &"proj".to_string(), &mut fs).unwrap();
    let all = cur.list(&None, &fs);
    assert!(all.iter().any(|n| n == "todo"));
    assert!(all.iter().any(|n| n == "proj"));
    let notes = cur.list(&Some(VaultItem::Note), &fs);
    assert!(notes.iter().any(|n| n == "todo"));
    assert!(!notes.iter().any(|n| n == "proj"));
    let folders = cur.list(&Some(VaultItem::Folder), &fs);
    assert!(folders.iter().any(|n| n == "proj"));
    assert!(!folders.iter().any(|n| n == "todo"));
}

#[test]
fn open_folder_records_action() {
    let mut fs = seeded_fs();
    let vs = entered_work(&mut fs);
    let cur = vs.ref_current().unwrap();
    let p = cur.open_folder(&mut fs);
    assert!(path_is(&p, true, &["tmp", "vaults", "work"]));
    assert!(matches!(fs.pending_actions().last(), Some(FsAction::OpenFolder(_))));
}

#[test]
fn registry_bookkeeping() {
    let mut d = Data::new();
    d.add_vault("a".to_string(), apath(&["x"]));
    d.add_vault("b".to_string(), apath(&["y"]));
    assert!(d.vault_exists(&"a".to_string()));
    assert!(!d.vault_exists(&"c".to_string()));
    assert!(path_is(d.get_vault_location(&"b".to_string()).unwrap(), true, &["y"]));
    d.set_current_vault(Some("a".to_string()));
    d.rename_vault(&"a".to_string(), "a2".to_string());
    assert_eq!(d.get_current_vault(), Some(&"a2".to_string()));
    assert!(d.vault_exists(&"a2".to_string()));
    assert!(!d.vault_exists(&"a".to_string()));
    d.set_vault_location(&"b".to_string(), apath(&["z"]));
    assert!(path_is(d.get_vault_location(&"b".to_string()).unwrap(), true, &["z"]));
    d.remove_vault(&"a2".to_string());
    assert_eq!(d.get_current_vault(), None);
    assert_eq!(d.get_vaults().len(), 1);
}

#[test]
fn config_settings() {
    let mut c = Config::default();
    assert_eq!(c.get_editor(), "nvim");
    assert!(c.editor_conflict());
    c.set_config(&ConfigType::Editor, &"hx".to_string());
    assert_eq!(c.get_config(&ConfigType::Editor), "hx");
    c.set_config(&ConfigType::Conflict, &"false".to_string());
    assert!(!c.editor_conflict());
    assert_eq!(c.get_config(&ConfigType::Conflict), "false");
    let (editor, conflict) = c.get_editor_data();
    assert_eq!(editor, "hx");
    assert!(!conflict);
}

#[test]
fn item_kind_words() {
    assert_eq!(Item::Vault.full(), "vault");
    assert_eq!(Item::Note.full(), "note");
    assert_eq!(Item::Folder.full(), "folder");
    assert_eq!(Item::Vault.fs_name(), "folder");
    assert_eq!(Item::Note.fs_name(), "note");
    assert_eq!(Item::Vault.to_vault_item(), VaultItem::Folder);
    assert_eq!(Item::Note.to_vault_item(), VaultItem::Note);
    assert_eq!(VaultItem::Note.to_item(), Item::Note);
    assert_eq!(VaultItem::Folder.full(), "folder");
    assert_eq!(ConfigType::Editor.to_str(), "editor");
    assert_eq!(ConfigType::Conflict.to_str(), "conflict");
}

#[test]
fn dispatcher_runs_a_command() {
    let mut fs = seeded_fs();
    let vs = entered_work(&mut fs);
    let args = Args {
        command: Command::Note { name: "todo".to_string() },
    };
    let mut app = App::new(args, Config::default(), vs, fs);
    match app.handle_args() {
        Ok(Message::ItemCreated(Item::Note, n)) => assert_eq!(n, "todo"),
        other => panic!("unexpected outcome: {:?}", other),
    }
    assert_eq!(
        app.fs_ref().lookup(&apath(&["tmp", "vaults", "work", "todo.md"])),
        Some(false)
    );
    assert!(app.fs_ref().pending_actions().len() > 0);
    app.clear_actions();
    assert_eq!(app.fs_ref().pending_actions().len(), 0);
}

#[test]
fn dispatcher_changes_folder() {
    let mut fs = seeded_fs();
    let vs = entered_work(&mut fs);
    {
        let cur = vs.ref_current().unwrap();
        cur.create_vault_item(VaultItem::Folder, &"proj".to_string(), &mut fs).unwrap();
    }
    let args = Args {
        command: Command::Chdir { path: rpath(&["proj"]) },
    };
    let mut app = App::new(args, Config::default(), vs, fs);
    assert!(matches!(app.handle_args(), Ok(Message::FolderChanged)));
    let cur = app.vaults_ref().ref_current().unwrap();
    assert!(path_is(cur.get_folder(), false, &["proj"]));
}

#[test]
fn dispatcher_sets_and_rejects_settings() {
    let fs = Fs::new();
    let vs = Vaults::new(Data::new(), Vec::new());
    let args = Args {
        command: Command::Config {
            config_type: Some(ConfigType::Conflict),
            value: Some("maybe".to_string()),
        },
    };
    let mut app = App::new(args, Config::default(), vs, fs);
    assert!(matches!(app.handle_args(), Err(Error::Undefined(_))));

    let fs2 = Fs::new();
    let vs2 = Vaults::new(Data::new(), Vec::new());
    let args2 = Args {
        command: Command::Config {
            config_type: Some(ConfigType::Editor),
            value: Some("hx".to_string()),
        },
    };
    let mut app2 = App::new(args2, Config::default(), vs2, fs2);
    match app2.handle_args() {
        Ok(Message::ConfigSet(ConfigType::Editor, v)) => assert_eq!(v, "hx"),
        other => panic!("unexpected outcome: {:?}", other),
    }
    assert_eq!(app2.config_ref().get_editor(), "hx");
}

#[test]
fn dispatcher_creates_vault() {
    let fs = seeded_fs();
    let vs = Vaults::new(Data::new(), Vec::new());
    let args = Args {
        command: Command::Vault {
            show_loc: false,
            name: Some("work".to_string()),
            location: Some(apath(&["tmp", "vaults"])),
        },
    };
    let mut app = App::new(args, Config::default(), vs, fs);
    match app.handle_args() {
        Ok(Message::ItemCreated(Item::Vault, n)) => assert_eq!(n, "work"),
        other => panic!("unexpected outcome: {:?}", other),
    }
    assert!(app.vaults_ref().registry().get_vaults().len() == 1);
    assert_eq!(app.fs_ref().lookup(&apath(&["tmp", "vaults", "work"])), Some(true));
}

#[test]
fn dispatcher_reports_errors() {
    let fs = seeded_fs();
    let vs = Vaults::new(Data::new(), Vec::new());
    let args = Args {
        command: Command::Open { name: "x".to_string() },
    };
    let mut app = App::new(args, Config::default(), vs, fs);
    assert!(matches!(app.handle_args(), Err(Error::NotInsideVault)));
}
