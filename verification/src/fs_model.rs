//! In-memory model of the filesystem subtrees the program works on.
//!
//! The model is a finite map from absolute, normalized paths to an
//! entry kind (directory or file). Every mutation is recorded in an
//! action log, so an unverified shell can replay the same operations,
//! in order, onto the real filesystem.

use vstd::map::*;
use vstd::prelude::*;

use crate::paths::{
    is_seg_prefix, seg_is_normal, segs_normal, PathModel, SysPath,
};

verus! {

/// One operation to perform on the real filesystem (or system), in order.
#[derive(Debug)]
pub enum FsAction {
    CreateDir(SysPath),
    CreateFile(SysPath),
    RemoveFile(SysPath),
    RemoveDirTree(SysPath),
    Rename { from: SysPath, to: SysPath },
    MoveItem { from: SysPath, into: SysPath },
    OpenNote(SysPath),
    OpenFolder(SysPath),
}

/// A key of the filesystem map: at least one segment, all normal.
pub open spec fn key_ok(k: Seq<Seq<char>>) -> bool {
    k.len() >= 1 && segs_normal(k)
}

/// Well-formed filesystem map: every key is a valid absolute path's
/// segments, and every entry below the top level hangs off a directory.
pub open spec fn tree_wf(m: Map<Seq<Seq<char>>, bool>) -> bool {
    &&& forall|k: Seq<Seq<char>>| #[trigger] m.dom().contains(k) ==> key_ok(k)
    &&& forall|k: Seq<Seq<char>>|
        #[trigger] m.dom().contains(k) && k.len() > 1 ==> m.dom().contains(k.drop_last())
            && m[k.drop_last()]
}

/// The map described by a listing of entries, later entries winning.
pub open spec fn entries_map(s: Seq<(SysPath, bool)>) -> Map<Seq<Seq<char>>, bool>
    decreases s.len(),
{
    if s.len() == 0 {
        Map::empty()
    } else {
        entries_map(s.drop_last()).insert(s.last().0@.segs, s.last().1)
    }
}

/// No two entries name the same path.
pub open spec fn distinct_keys(s: Seq<(SysPath, bool)>) -> bool {
    forall|i: int, j: int|
        0 <= i < j < s.len() ==> (#[trigger] s[i]).0@.segs != (#[trigger] s[j]).0@.segs
}

/// A key is in the entries' map exactly when some entry carries it.
pub proof fn lemma_map_contains(s: Seq<(SysPath, bool)>, k: Seq<Seq<char>>)
    ensures
        entries_map(s).dom().contains(k) <==> (exists|i: int|
            0 <= i < s.len() && (#[trigger] s[i]).0@.segs == k),
    decreases s.len(),
{
    if s.len() > 0 {
        lemma_map_contains(s.drop_last(), k);
        if entries_map(s).dom().contains(k) {
            if s.last().0@.segs == k {
                assert(s[s.len() - 1].0@.segs == k);
            } else {
                let i = choose|i: int| 0 <= i < s.drop_last().len() && (#[trigger] s.drop_last()[i]).0@.segs == k;
                assert(s[i].0@.segs == k);
            }
        }
        if exists|i: int| 0 <= i < s.len() && (#[trigger] s[i]).0@.segs == k {
            let i = choose|i: int| 0 <= i < s.len() && (#[trigger] s[i]).0@.segs == k;
            if i < s.len() - 1 {
                assert(s.drop_last()[i].0@.segs == k);
            }
        }
    }
}

/// With distinct entries, each entry's value is the map's value at its key.
pub proof fn lemma_map_value(s: Seq<(SysPath, bool)>, i: int)
    requires
        distinct_keys(s),
        0 <= i < s.len(),
    ensures
        entries_map(s).dom().contains(s[i].0@.segs),
        entries_map(s)[s[i].0@.segs] == s[i].1,
    decreases s.len(),
{
    if i < s.len() - 1 {
        assert(distinct_keys(s.drop_last())) by {
            assert(forall|a: int, b: int|
                0 <= a < b < s.drop_last().len() ==> (#[trigger] s.drop_last()[a]).0@.segs
                    != (#[trigger] s.drop_last()[b]).0@.segs) by {
                assert(forall|a: int| 0 <= a < s.len() - 1 ==> #[trigger] s.drop_last()[a] == s[a]);
            }
        }
        assert(s.drop_last()[i] == s[i]);
        lemma_map_value(s.drop_last(), i);
        assert(s[s.len() - 1].0@.segs != s[i].0@.segs);
    }
}

/// Inside a well-formed tree, every leading part of a present path is
/// itself present, and is a directory if anything hangs below it.
pub proof fn lemma_tree_prefix_closed(m: Map<Seq<Seq<char>>, bool>, k: Seq<Seq<char>>, q: Seq<Seq<char>>)
    requires
        tree_wf(m),
        m.dom().contains(k),
        is_seg_prefix(q, k),
        q.len() >= 1,
    ensures
        m.dom().contains(q),
        q.len() < k.len() ==> m[q],
    decreases k.len(),
{
    if q.len() == k.len() {
        assert(k.take(k.len() as int) =~= k);
        assert(q =~= k);
    } else {
        let p = k.drop_last();
        assert(k.len() > 1);
        assert(m.dom().contains(p) && m[p]);
        assert(is_seg_prefix(q, p)) by {
            assert(p.take(q.len() as int) =~= k.take(q.len() as int));
        }
        lemma_tree_prefix_closed(m, p, q);
    }
}

/// Inserting a fresh entry under a present directory keeps the tree
/// well-formed.
pub proof fn lemma_tree_wf_insert(m: Map<Seq<Seq<char>>, bool>, k: Seq<Seq<char>>, dir: bool)
    requires
        tree_wf(m),
        key_ok(k),
        !m.dom().contains(k),
        k.len() > 1 ==> m.dom().contains(k.drop_last()) && m[k.drop_last()],
    ensures
        tree_wf(m.insert(k, dir)),
{
    let m2 = m.insert(k, dir);
    assert forall|x: Seq<Seq<char>>| m2.dom().contains(x) implies key_ok(x) by {
        if x != k {
            assert(m.dom().contains(x));
        }
    }
    assert forall|x: Seq<Seq<char>>|
        m2.dom().contains(x) && x.len() > 1 implies m2.dom().contains(x.drop_last())
            && m2[x.drop_last()] by {
        if x == k {
            assert(x.drop_last().len() != x.len());
        } else {
            assert(m.dom().contains(x));
            if x.drop_last() == k {
                assert(m.dom().contains(k));
                assert(false);
            }
        }
    }
}

/// The map after deleting the whole subtree rooted at `pre`.
pub open spec fn subtree_removed(m: Map<Seq<Seq<char>>, bool>, pre: Seq<Seq<char>>) -> Map<
    Seq<Seq<char>>,
    bool,
> {
    Map::new(|k: Seq<Seq<char>>| m.dom().contains(k) && !is_seg_prefix(pre, k), |k| m[k])
}

/// The map after moving the whole subtree rooted at `f` to root `t`.
pub open spec fn subtree_moved(
    m: Map<Seq<Seq<char>>, bool>,
    f: Seq<Seq<char>>,
    t: Seq<Seq<char>>,
) -> Map<Seq<Seq<char>>, bool> {
    Map::new(
        |k: Seq<Seq<char>>|
            if is_seg_prefix(t, k) {
                m.dom().contains(f + k.skip(t.len() as int))
            } else {
                m.dom().contains(k) && !is_seg_prefix(f, k)
            },
        |k: Seq<Seq<char>>|
            if is_seg_prefix(t, k) {
                m[f + k.skip(t.len() as int)]
            } else {
                m[k]
            },
    )
}

/// What leads the parent leads the child.
pub proof fn lemma_prefix_of_parent(pre: Seq<Seq<char>>, x: Seq<Seq<char>>)
    requires
        x.len() >= 1,
        is_seg_prefix(pre, x.drop_last()),
    ensures
        is_seg_prefix(pre, x),
{
    assert(x.take(pre.len() as int) =~= x.drop_last().take(pre.len() as int));
}

/// A path led by `t` is `t` plus what remains after `t`.
pub proof fn lemma_prefix_restore(t: Seq<Seq<char>>, x: Seq<Seq<char>>)
    requires
        is_seg_prefix(t, x),
    ensures
        x =~= t + x.skip(t.len() as int),
{
}

/// Appending leaves the appended part after the prefix.
pub proof fn lemma_append_skip(a: Seq<Seq<char>>, b: Seq<Seq<char>>)
    ensures
        (a + b).skip(a.len() as int) =~= b,
        is_seg_prefix(a, a + b),
{
    assert((a + b).take(a.len() as int) =~= a);
}

/// Removing one entry removes exactly its key from the described map.
proof fn lemma_distinct_remove(s: Seq<(SysPath, bool)>, i: int)
    requires
        distinct_keys(s),
        0 <= i < s.len(),
    ensures
        distinct_keys(s.remove(i)),
        forall|a: int| 0 <= a < i ==> #[trigger] s.remove(i)[a] == s[a],
        forall|a: int| i <= a < s.len() - 1 ==> #[trigger] s.remove(i)[a] == s[a + 1],
{
    assert forall|a: int, b: int|
        0 <= a < b < s.remove(i).len() implies (#[trigger] s.remove(i)[a]).0@.segs
            != (#[trigger] s.remove(i)[b]).0@.segs by {
        let a0 = if a < i {
            a
        } else {
            a + 1
        };
        let b0 = if b < i {
            b
        } else {
            b + 1
        };
        assert(s.remove(i)[a] == s[a0]);
        assert(s.remove(i)[b] == s[b0]);
    }
}

/// The map of a listing with one entry removed, by the entry's key.
proof fn lemma_map_remove_idx(s: Seq<(SysPath, bool)>, i: int)
    requires
        distinct_keys(s),
        0 <= i < s.len(),
    ensures
        entries_map(s.remove(i)) =~= entries_map(s).remove(s[i].0@.segs),
{
    let s2 = s.remove(i);
    let key = s[i].0@.segs;
    lemma_distinct_remove(s, i);
    let m1 = entries_map(s2);
    let m2 = entries_map(s).remove(key);
    assert_maps_equal!(m1, m2, k => {
        if m1.dom().contains(k) {
            lemma_map_contains(s2, k);
            let j = choose|j: int| 0 <= j < s2.len() && (#[trigger] s2[j]).0@.segs == k;
            lemma_map_value(s2, j);
            let j0 = if j < i { j } else { j + 1 };
            assert(s2[j] == s[j0]);
            assert(j0 != i);
            lemma_map_value(s, j0);
        }
        if m2.dom().contains(k) {
            lemma_map_contains(s, k);
            let j0 = choose|j: int| 0 <= j < s.len() && (#[trigger] s[j]).0@.segs == k;
            assert(j0 != i);
            let j = if j0 < i { j0 } else { j0 - 1 };
            assert(s2[j] == s[j0]);
            lemma_map_value(s2, j);
            lemma_map_value(s, j0);
        }
    });
}

/// Removing a file never orphans an entry.
proof fn lemma_tree_wf_remove_file(m: Map<Seq<Seq<char>>, bool>, key: Seq<Seq<char>>)
    requires
        tree_wf(m),
        m.dom().contains(key),
        !m[key],
    ensures
        tree_wf(m.remove(key)),
{
    let m2 = m.remove(key);
    assert forall|x: Seq<Seq<char>>|
        #[trigger] m2.dom().contains(x) && x.len() > 1 implies m2.dom().contains(x.drop_last())
            && m2[x.drop_last()] by {
        assert(m.dom().contains(x));
        if x.drop_last() == key {
            assert(false);
        }
    }
}

/// Deleting a whole subtree never orphans an entry.
proof fn lemma_tree_wf_subtree_removed(m: Map<Seq<Seq<char>>, bool>, pre: Seq<Seq<char>>)
    requires
        tree_wf(m),
    ensures
        tree_wf(subtree_removed(m, pre)),
{
    let m2 = subtree_removed(m, pre);
    assert forall|x: Seq<Seq<char>>|
        #[trigger] m2.dom().contains(x) && x.len() > 1 implies m2.dom().contains(x.drop_last())
            && m2[x.drop_last()] by {
        assert(m.dom().contains(x));
        if is_seg_prefix(pre, x.drop_last()) {
            lemma_prefix_of_parent(pre, x);
            assert(false);
        }
    }
}

/// How deleting a subtree interacts with adding one fresh entry.
proof fn lemma_subtree_removed_step(
    m: Map<Seq<Seq<char>>, bool>,
    pre: Seq<Seq<char>>,
    k: Seq<Seq<char>>,
    v: bool,
)
    ensures
        is_seg_prefix(pre, k) ==> subtree_removed(m.insert(k, v), pre) =~= subtree_removed(m, pre),
        !is_seg_prefix(pre, k) ==> subtree_removed(m.insert(k, v), pre) =~= subtree_removed(
            m,
            pre,
        ).insert(k, v),
{
}

/// How moving a subtree interacts with adding one fresh entry that is
/// not already below the destination.
proof fn lemma_subtree_moved_step(
    m: Map<Seq<Seq<char>>, bool>,
    f: Seq<Seq<char>>,
    t: Seq<Seq<char>>,
    k: Seq<Seq<char>>,
    v: bool,
)
    requires
        !is_seg_prefix(t, k),
        forall|x: Seq<Seq<char>>| #[trigger] m.dom().contains(x) ==> !is_seg_prefix(t, x),
    ensures
        is_seg_prefix(f, k) ==> subtree_moved(m.insert(k, v), f, t) =~= subtree_moved(
            m,
            f,
            t,
        ).insert(t + k.skip(f.len() as int), v),
        !is_seg_prefix(f, k) ==> subtree_moved(m.insert(k, v), f, t) =~= subtree_moved(
            m,
            f,
            t,
        ).insert(k, v),
{
    if is_seg_prefix(f, k) {
        let kk = t + k.skip(f.len() as int);
        lemma_append_skip(t, k.skip(f.len() as int));
        let lhs = subtree_moved(m.insert(k, v), f, t);
        let rhs = subtree_moved(m, f, t).insert(kk, v);
        assert_maps_equal!(lhs, rhs, x => {
            if is_seg_prefix(t, x) {
                let src = f + x.skip(t.len() as int);
                lemma_append_skip(f, x.skip(t.len() as int));
                if src == k {
                    assert(x =~= kk) by {
                        lemma_prefix_restore(t, x);
                        assert(src.skip(f.len() as int) =~= x.skip(t.len() as int));
                        assert(k.skip(f.len() as int) =~= x.skip(t.len() as int));
                    }
                }
                if x == kk {
                    assert(src =~= k) by {
                        lemma_prefix_restore(f, k);
                        assert(kk.skip(t.len() as int) =~= k.skip(f.len() as int));
                    }
                }
            } else {
                assert(x != kk);
            }
        });
    } else {
        let lhs = subtree_moved(m.insert(k, v), f, t);
        let rhs = subtree_moved(m, f, t).insert(k, v);
        assert_maps_equal!(lhs, rhs, x => {
            if is_seg_prefix(t, x) {
                let src = f + x.skip(t.len() as int);
                lemma_append_skip(f, x.skip(t.len() as int));
                assert(src != k);
                assert(x != k);
            }
        });
    }
}

/// Moving a subtree below a present directory never orphans an entry.
proof fn lemma_tree_wf_subtree_moved(
    m: Map<Seq<Seq<char>>, bool>,
    f: Seq<Seq<char>>,
    t: Seq<Seq<char>>,
)
    requires
        tree_wf(m),
        m.dom().contains(f),
        !m.dom().contains(t),
        key_ok(t),
        !is_seg_prefix(f, t),
        t.len() > 1 ==> m.dom().contains(t.drop_last()) && m[t.drop_last()],
    ensures
        tree_wf(subtree_moved(m, f, t)),
{
    let m2 = subtree_moved(m, f, t);
    assert forall|x: Seq<Seq<char>>| #[trigger] m2.dom().contains(x) implies key_ok(x) by {
        if is_seg_prefix(t, x) {
            let src = f + x.skip(t.len() as int);
            assert(m.dom().contains(src));
            assert(key_ok(src));
            lemma_append_skip(f, x.skip(t.len() as int));
            assert forall|j: int| 0 <= j < x.len() implies seg_is_normal(#[trigger] x[j]) by {
                if j < t.len() {
                    assert(x[j] == t[j]) by {
                        assert(x.take(t.len() as int) =~= t);
                    }
                } else {
                    assert(x[j] == src[j - t.len() + f.len()]) by {
                        assert(x.skip(t.len() as int)[j - t.len()] == x[j]);
                        assert(src.skip(f.len() as int) =~= x.skip(t.len() as int));
                    }
                }
            }
        } else {
            assert(m.dom().contains(x));
        }
    }
    assert forall|x: Seq<Seq<char>>|
        #[trigger] m2.dom().contains(x) && x.len() > 1 implies m2.dom().contains(x.drop_last())
            && m2[x.drop_last()] by {
        if is_seg_prefix(t, x) {
            if x.len() == t.len() {
                assert(x =~= t) by {
                    assert(x.take(t.len() as int) =~= x);
                }
                assert(t.len() > 1);
                let p = t.drop_last();
                assert(!is_seg_prefix(t, p));
                assert(!is_seg_prefix(f, p)) by {
                    if is_seg_prefix(f, p) {
                        lemma_prefix_of_parent(f, t);
                    }
                }
                assert(m2.dom().contains(p) && m2[p]);
            } else {
                let suffix = x.skip(t.len() as int);
                let src = f + suffix;
                assert(m.dom().contains(src));
                assert(suffix.len() >= 1);
                assert(src.len() > 1) by {
                    assert(key_ok(f) && key_ok(src));
                }
                assert(m.dom().contains(src.drop_last()) && m[src.drop_last()]);
                let p = x.drop_last();
                assert(is_seg_prefix(t, p)) by {
                    assert(p.take(t.len() as int) =~= x.take(t.len() as int));
                }
                assert(f + p.skip(t.len() as int) =~= src.drop_last()) by {
                    assert(p.skip(t.len() as int) =~= suffix.drop_last());
                }
                assert(m2.dom().contains(p) && m2[p]);
            }
        } else {
            assert(m.dom().contains(x) && !is_seg_prefix(f, x));
            let p = x.drop_last();
            assert(m.dom().contains(p) && m[p]);
            assert(!is_seg_prefix(f, p)) by {
                if is_seg_prefix(f, p) {
                    lemma_prefix_of_parent(f, x);
                }
            }
            assert(!is_seg_prefix(t, p)) by {
                if is_seg_prefix(t, p) {
                    lemma_prefix_of_parent(t, x);
                }
            }
            assert(m2.dom().contains(p) && m2[p]);
        }
    }
}

/// The entry `new` is what `orig` becomes when the subtree at `f` is
/// moved to `t`: rewritten below `f`, untouched elsewhere.
pub open spec fn moved_entry_view(
    orig: (SysPath, bool),
    new: (SysPath, bool),
    f: Seq<Seq<char>>,
    t: Seq<Seq<char>>,
) -> bool {
    &&& new.1 == orig.1
    &&& new.0@.abs == orig.0@.abs
    &&& new.0@.segs == if is_seg_prefix(f, orig.0@.segs) {
        t + orig.0@.segs.skip(f.len() as int)
    } else {
        orig.0@.segs
    }
}

/// The filesystem model: the known entries, and the log of operations
/// that have to be replayed onto the real filesystem.
#[derive(Debug)]
pub struct Fs {
    entries: Vec<(SysPath, bool)>,
    log: Vec<FsAction>,
}

impl View for Fs {
    type V = Map<Seq<Seq<char>>, bool>;

    closed spec fn view(&self) -> Map<Seq<Seq<char>>, bool> {
        entries_map(self.entries@)
    }
}

impl Fs {
    /// The pending operations, oldest first.
    pub closed spec fn actions(self) -> Seq<FsAction> {
        self.log@
    }

    /// Entries are distinct absolute normalized paths forming a tree.
    pub closed spec fn wf(self) -> bool {
        &&& distinct_keys(self.entries@)
        &&& forall|i: int|
            0 <= i < self.entries@.len() ==> (#[trigger] self.entries@[i]).0@.abs
                && key_ok(self.entries@[i].0@.segs)
        &&& tree_wf(self.view())
    }

    /// A well-formed model has a well-formed tree.
    pub proof fn lemma_wf_tree(self)
        requires
            self.wf(),
        ensures
            tree_wf(self@),
    {
    }

    /// An empty model with an empty log.
    pub fn new() -> (r: Fs)
        ensures
            r.wf(),
            r@ =~= Map::<Seq<Seq<char>>, bool>::empty(),
            r.actions() =~= Seq::<FsAction>::empty(),
    {
        Fs { entries: Vec::new(), log: Vec::new() }
    }

    /// The pending operations, oldest first, for the shell to replay.
    pub fn pending_actions(&self) -> (r: &Vec<FsAction>)
        ensures
            r@ == self.actions(),
    {
        &self.log
    }

    /// Forget the pending operations once they have been replayed.
    pub fn clear_actions(&mut self)
        ensures
            final(self)@ == old(self)@,
            final(self).wf() == old(self).wf(),
            final(self).actions() =~= Seq::<FsAction>::empty(),
    {
        self.log.clear();
    }

    /// Record an operation that touches no model state (opening things).
    pub fn push_action(&mut self, act: FsAction)
        ensures
            final(self)@ == old(self)@,
            final(self).wf() == old(self).wf(),
            final(self).actions() == old(self).actions().push(act),
    {
        self.log.push(act);
    }

    /// The position of the entry for this path, if any.
    fn find_entry(&self, p: &SysPath) -> (r: Option<usize>)
        requires
            p@.abs,
            self.wf(),
        ensures
            match r {
                Some(i) => i < self.entries@.len() && self.entries@[i as int].0@.segs == p@.segs,
                None => !self@.dom().contains(p@.segs),
            },
    {
        let mut i: usize = 0;
        while i < self.entries.len()
            invariant
                i <= self.entries@.len(),
                p@.abs,
                self.wf(),
                forall|j: int| 0 <= j < i ==> (#[trigger] self.entries@[j]).0@.segs != p@.segs,
            decreases self.entries@.len() - i,
        {
            if self.entries[i].0.equals(p) {
                return Some(i);
            }
            i += 1;
        }
        proof {
            lemma_map_contains(self.entries@, p@.segs);
        }
        None
    }

    /// What the model holds at this path: a directory, a file, or nothing.
    pub fn lookup(&self, p: &SysPath) -> (r: Option<bool>)
        requires
            p@.abs,
            self.wf(),
        ensures
            match r {
                Some(d) => self@.dom().contains(p@.segs) && self@[p@.segs] == d,
                None => !self@.dom().contains(p@.segs),
            },
    {
        match self.find_entry(p) {
            Some(i) => {
                proof {
                    lemma_map_value(self.entries@, i as int);
                }
                Some(self.entries[i].1)
            }
            None => None,
        }
    }

    /// True when the path is present as a directory.
    pub fn is_dir(&self, p: &SysPath) -> (r: bool)
        requires
            p@.abs,
            self.wf(),
        ensures
            r == (self@.dom().contains(p@.segs) && self@[p@.segs]),
    {
        match self.lookup(p) {
            Some(d) => d,
            None => false,
        }
    }

    /// Insert a fresh entry whose parent is present; log the operation.
    pub(crate) fn insert_entry(&mut self, p: &SysPath, dir: bool, act: FsAction)
        requires
            old(self).wf(),
            p@.abs,
            key_ok(p@.segs),
            !old(self)@.dom().contains(p@.segs),
            p@.segs.len() > 1 ==> old(self)@.dom().contains(p@.segs.drop_last())
                && old(self)@[p@.segs.drop_last()],
        ensures
            final(self).wf(),
            final(self)@ == old(self)@.insert(p@.segs, dir),
            final(self).actions() == old(self).actions().push(act),
    {
        let ghost before = self.entries@;
        self.entries.push((p.clone(), dir));
        self.log.push(act);
        proof {
            assert(self.entries@.drop_last() =~= before);
            assert(self.entries@.last().0@.segs == p@.segs);
            assert(self@ =~= old(self)@.insert(p@.segs, dir));
            assert(distinct_keys(self.entries@)) by {
                lemma_map_contains(before, p@.segs);
                assert(forall|i: int|
                    0 <= i < before.len() ==> (#[trigger] before[i]).0@.segs != p@.segs);
                assert(forall|i: int|
                    0 <= i < before.len() ==> #[trigger] self.entries@[i] == before[i]);
            }
            lemma_tree_wf_insert(old(self)@, p@.segs, dir);
        }
    }

    /// Mirror a directory that already exists on the real filesystem:
    /// no operation is logged. Succeeds when the path can stand in the
    /// model (absolute, normal segments, parent already mirrored) and is
    /// not already present as a file.
    pub fn record_dir(&mut self, p: &SysPath) -> (r: bool)
        requires
            old(self).wf(),
        ensures
            final(self).wf(),
            final(self).actions() == old(self).actions(),
            r == (p@.abs && key_ok(p@.segs) && (p@.segs.len() == 1 || (
                old(self)@.dom().contains(p@.segs.drop_last()) && old(self)@[p@.segs.drop_last()]
            )) && (!old(self)@.dom().contains(p@.segs) || old(self)@[p@.segs])),
            r && !old(self)@.dom().contains(p@.segs) ==> final(self)@ == old(self)@.insert(
                p@.segs,
                true,
            ),
            r && old(self)@.dom().contains(p@.segs) ==> final(self)@ == old(self)@,
            !r ==> final(self)@ == old(self)@,
    {
        self.record_entry(p, true)
    }

    /// Mirror a file that already exists on the real filesystem.
    pub fn record_file(&mut self, p: &SysPath) -> (r: bool)
        requires
            old(self).wf(),
        ensures
            final(self).wf(),
            final(self).actions() == old(self).actions(),
            r == (p@.abs && key_ok(p@.segs) && (p@.segs.len() == 1 || (
                old(self)@.dom().contains(p@.segs.drop_last()) && old(self)@[p@.segs.drop_last()]
            )) && (!old(self)@.dom().contains(p@.segs) || !old(self)@[p@.segs])),
            r && !old(self)@.dom().contains(p@.segs) ==> final(self)@ == old(self)@.insert(
                p@.segs,
                false,
            ),
            r && old(self)@.dom().contains(p@.segs) ==> final(self)@ == old(self)@,
            !r ==> final(self)@ == old(self)@,
    {
        self.record_entry(p, false)
    }

    /// Shared body of `record_dir` and `record_file`.
    fn record_entry(&mut self, p: &SysPath, dir: bool) -> (r: bool)
        requires
            old(self).wf(),
        ensures
            final(self).wf(),
            final(self).actions() == old(self).actions(),
            r == (p@.abs && key_ok(p@.segs) && (p@.segs.len() == 1 || (
                old(self)@.dom().contains(p@.segs.drop_last()) && old(self)@[p@.segs.drop_last()]
            )) && (!old(self)@.dom().contains(p@.segs) || old(self)@[p@.segs] == dir)),
            r && !old(self)@.dom().contains(p@.segs) ==> final(self)@ == old(self)@.insert(
                p@.segs,
                dir,
            ),
            r && old(self)@.dom().contains(p@.segs) ==> final(self)@ == old(self)@,
            !r ==> final(self)@ == old(self)@,
    {
        if !self.is_absolute_normal(p) {
            return false;
        }
        if p.seg_count() == 0 {
            return false;
        }
        if p.seg_count() > 1 {
            let parent = self.parent_of(p);
            if !self.is_dir(&parent) {
                return false;
            }
        }
        match self.lookup(p) {
            Some(d) => d == dir,
            None => {
                let ghost before = self.entries@;
                self.entries.push((p.clone(), dir));
                proof {
                    assert(self.entries@.drop_last() =~= before);
                    assert(self@ =~= old(self)@.insert(p@.segs, dir));
                    assert(distinct_keys(self.entries@)) by {
                        lemma_map_contains(before, p@.segs);
                        assert(forall|i: int|
                            0 <= i < before.len() ==> (#[trigger] before[i]).0@.segs != p@.segs);
                        assert(forall|i: int|
                            0 <= i < before.len() ==> #[trigger] self.entries@[i] == before[i]);
                    }
                    lemma_tree_wf_insert(old(self)@, p@.segs, dir);
                }
                true
            }
        }
    }

    /// Remove a single file entry; log the operation.
    pub(crate) fn remove_file_entry(&mut self, p: &SysPath, act: FsAction)
        requires
            old(self).wf(),
            p@.abs,
            old(self)@.dom().contains(p@.segs),
            !old(self)@[p@.segs],
        ensures
            final(self).wf(),
            final(self)@ == old(self)@.remove(p@.segs),
            final(self).actions() == old(self).actions().push(act),
    {
        let idx = match self.find_entry(p) {
            Some(i) => i,
            None => {
                proof {
                    assert(false);
                }
                0
            },
        };
        let ghost s = self.entries@;
        self.entries.remove(idx);
        self.log.push(act);
        proof {
            lemma_map_remove_idx(s, idx as int);
            lemma_distinct_remove(s, idx as int);
            assert(self@ =~= old(self)@.remove(p@.segs));
            lemma_tree_wf_remove_file(old(self)@, p@.segs);
            assert forall|i: int|
                0 <= i < self.entries@.len() implies (#[trigger] self.entries@[i]).0@.abs
                    && key_ok(self.entries@[i].0@.segs) by {
                if i < idx {
                    assert(self.entries@[i] == s[i]);
                } else {
                    assert(self.entries@[i] == s[i + 1]);
                }
            }
        }
    }

    /// Remove the whole subtree rooted at this path; log the operation.
    pub(crate) fn remove_subtree(&mut self, p: &SysPath, act: FsAction)
        requires
            old(self).wf(),
            p@.abs,
        ensures
            final(self).wf(),
            final(self)@ == subtree_removed(old(self)@, p@.segs),
            final(self).actions() == old(self).actions().push(act),
    {
        let ghost s = self.entries@;
        let ghost pre = p@.segs;
        let mut kept: Vec<(SysPath, bool)> = Vec::new();
        let mut i: usize = 0;
        while i < self.entries.len()
            invariant
                self.wf(),
                p@.abs,
                s == self.entries@,
                pre == p@.segs,
                i <= s.len(),
                entries_map(kept@) =~= subtree_removed(entries_map(s.take(i as int)), pre),
                distinct_keys(kept@),
                forall|a: int|
                    0 <= a < kept@.len() ==> exists|b: int|
                        0 <= b < i && (#[trigger] kept@[a]).0@ == s[b].0@ && kept@[a].1 == s[b].1,
            decreases s.len() - i,
        {
            let ghost k = s[i as int].0@.segs;
            let ghost v = s[i as int].1;
            let ghost prev = entries_map(s.take(i as int));
            let ghost kept_before = kept@;
            let e = &self.entries[i];
            if !e.0.starts_with(p) {
                proof {
                    assert forall|a: int|
                        0 <= a < kept@.len() implies (#[trigger] kept@[a]).0@.segs != k by {
                        let b = choose|b: int|
                            0 <= b < i && (#[trigger] kept@[a]).0@ == s[b].0@ && kept@[a].1
                                == s[b].1;
                        assert(s[b].0@.segs != k);
                    }
                }
                let cl = (e.0.clone(), e.1);
                kept.push(cl);
                proof {
                    assert(kept@.drop_last() =~= kept_before);
                    assert(entries_map(kept@) =~= entries_map(kept_before).insert(k, v));
                    lemma_subtree_removed_step(prev, pre, k, v);
                }
            } else {
                proof {
                    assert(is_seg_prefix(pre, k));
                    lemma_subtree_removed_step(prev, pre, k, v);
                }
            }
            proof {
                assert(s.take(i as int + 1).drop_last() =~= s.take(i as int));
                assert(s.take(i as int + 1).last() == s[i as int]);
                assert(entries_map(s.take(i as int + 1)) == prev.insert(k, v));
                assert(entries_map(kept@) =~= subtree_removed(
                    entries_map(s.take(i as int + 1)),
                    pre,
                ));
            }
            i += 1;
        }
        self.entries = kept;
        self.log.push(act);
        proof {
            assert(s.take(s.len() as int) =~= s);
            assert(self@ =~= subtree_removed(old(self)@, pre));
            lemma_tree_wf_subtree_removed(old(self)@, pre);
            assert forall|a: int|
                0 <= a < self.entries@.len() implies (#[trigger] self.entries@[a]).0@.abs
                    && key_ok(self.entries@[a].0@.segs) by {
                let b = choose|b: int|
                    0 <= b < s.len() && (#[trigger] self.entries@[a]).0@ == s[b].0@
                        && self.entries@[a].1 == s[b].1;
            }
        }
    }

    /// Move the whole subtree rooted at `from` so that it is rooted at
    /// `to`; the destination must be free and its parent present.
    pub(crate) fn move_subtree(&mut self, from: &SysPath, to: &SysPath, act: FsAction)
        requires
            old(self).wf(),
            from@.abs,
            to@.abs,
            key_ok(to@.segs),
            old(self)@.dom().contains(from@.segs),
            !old(self)@.dom().contains(to@.segs),
            !is_seg_prefix(from@.segs, to@.segs),
            to@.segs.len() > 1 ==> old(self)@.dom().contains(to@.segs.drop_last()) && old(
                self,
            )@[to@.segs.drop_last()],
        ensures
            final(self).wf(),
            final(self)@ == subtree_moved(old(self)@, from@.segs, to@.segs),
            final(self).actions() == old(self).actions().push(act),
    {
        let ghost s = self.entries@;
        let ghost f = from@.segs;
        let ghost t = to@.segs;
        proof {
            assert forall|j: int|
                0 <= j < s.len() implies !is_seg_prefix(t, (#[trigger] s[j]).0@.segs) by {
                let k = s[j].0@.segs;
                lemma_map_value(s, j);
                if is_seg_prefix(t, k) {
                    lemma_tree_prefix_closed(old(self)@, k, t);
                }
            }
        }
        let mut kept: Vec<(SysPath, bool)> = Vec::new();
        let mut i: usize = 0;
        while i < self.entries.len()
            invariant
                self.wf(),
                from@.abs,
                to@.abs,
                s == self.entries@,
                f == from@.segs,
                t == to@.segs,
                i <= s.len(),
                forall|j: int| 0 <= j < s.len() ==> !is_seg_prefix(t, (#[trigger] s[j]).0@.segs),
                entries_map(kept@) =~= subtree_moved(entries_map(s.take(i as int)), f, t),
                distinct_keys(kept@),
                forall|a: int|
                    0 <= a < kept@.len() ==> exists|b: int|
                        0 <= b < i && moved_entry_view(s[b], #[trigger] kept@[a], f, t),
            decreases s.len() - i,
        {
            let ghost k = s[i as int].0@.segs;
            let ghost v = s[i as int].1;
            let ghost prev = entries_map(s.take(i as int));
            let ghost kept_before = kept@;
            proof {
                assert forall|x: Seq<Seq<char>>|
                    #[trigger] prev.dom().contains(x) implies !is_seg_prefix(t, x) by {
                    lemma_map_contains(s.take(i as int), x);
                    let j = choose|j: int|
                        0 <= j < s.take(i as int).len() && (#[trigger] s.take(i as int)[j]).0@.segs
                            == x;
                    assert(s[j].0@.segs == x);
                }
                lemma_subtree_moved_step(prev, f, t, k, v);
            }
            let e = &self.entries[i];
            let moved_here = e.0.starts_with(from);
            let newp = if moved_here {
                let rel = e.0.strip_prefix(from);
                to.join(&rel)
            } else {
                e.0.clone()
            };
            let ghost nk = newp@.segs;
            proof {
                if moved_here {
                    assert(nk == t + k.skip(f.len() as int));
                } else {
                    assert(nk == k);
                }
                assert forall|a: int|
                    0 <= a < kept@.len() implies (#[trigger] kept@[a]).0@.segs != nk by {
                    let b = choose|b: int|
                        0 <= b < i && moved_entry_view(s[b], #[trigger] kept@[a], f, t);
                    let kb = s[b].0@.segs;
                    assert(kb != k);
                    if is_seg_prefix(f, kb) && is_seg_prefix(f, k) {
                        if kept@[a].0@.segs == nk {
                            lemma_append_skip(t, kb.skip(f.len() as int));
                            lemma_append_skip(t, k.skip(f.len() as int));
                            assert(kb.skip(f.len() as int) =~= k.skip(f.len() as int));
                            lemma_prefix_restore(f, kb);
                            lemma_prefix_restore(f, k);
                            assert(kb =~= k);
                        }
                    } else if is_seg_prefix(f, kb) {
                        lemma_append_skip(t, kb.skip(f.len() as int));
                        assert(!is_seg_prefix(t, k));
                    } else if is_seg_prefix(f, k) {
                        lemma_append_skip(t, k.skip(f.len() as int));
                        assert(!is_seg_prefix(t, kb));
                    }
                }
            }
            kept.push((newp, e.1));
            proof {
                assert(kept@.drop_last() =~= kept_before);
                assert(entries_map(kept@) =~= entries_map(kept_before).insert(nk, v));
                assert(s.take(i as int + 1).drop_last() =~= s.take(i as int));
                assert(s.take(i as int + 1).last() == s[i as int]);
                assert(entries_map(s.take(i as int + 1)) == prev.insert(k, v));
                assert(entries_map(kept@) =~= subtree_moved(
                    entries_map(s.take(i as int + 1)),
                    f,
                    t,
                ));
                assert(moved_entry_view(s[i as int], kept@[kept@.len() - 1], f, t));
            }
            i += 1;
        }
        self.entries = kept;
        self.log.push(act);
        proof {
            assert(s.take(s.len() as int) =~= s);
            assert(self@ =~= subtree_moved(old(self)@, f, t));
            lemma_tree_wf_subtree_moved(old(self)@, f, t);
            assert forall|a: int|
                0 <= a < self.entries@.len() implies (#[trigger] self.entries@[a]).0@.abs
                    && key_ok(self.entries@[a].0@.segs) by {
                let b = choose|b: int|
                    0 <= b < s.len() && moved_entry_view(s[b], #[trigger] self.entries@[a], f, t);
                lemma_map_value(self.entries@, a);
                assert(self@.dom().contains(self.entries@[a].0@.segs));
            }
        }
    }

    /// The names directly inside the directory, each with whether it
    /// is itself a directory. Order is unspecified; names are distinct.
    pub fn children(&self, dir: &SysPath) -> (r: Vec<(String, bool)>)
        requires
            self.wf(),
            dir@.abs,
        ensures
            forall|i: int|
                0 <= i < r@.len() ==> self@.dom().contains(
                    dir@.segs.push((#[trigger] r@[i]).0@),
                ) && self@[dir@.segs.push(r@[i].0@)] == r@[i].1,
            forall|k: Seq<Seq<char>>|
                #[trigger] self@.dom().contains(k) && k.len() == dir@.segs.len() + 1
                    && is_seg_prefix(dir@.segs, k) ==> exists|i: int|
                    0 <= i < r@.len() && (#[trigger] r@[i]).0@ == k.last() && r@[i].1 == self@[k],
            forall|i: int, j: int| 0 <= i < j < r@.len() ==> r@[i].0@ != r@[j].0@,
    {
        let ghost s = self.entries@;
        let mut out: Vec<(String, bool)> = Vec::new();
        let mut i: usize = 0;
        while i < self.entries.len()
            invariant
                self.wf(),
                dir@.abs,
                s == self.entries@,
                i <= s.len(),
                forall|a: int|
                    0 <= a < out@.len() ==> exists|b: int|
                        0 <= b < i && s[b].0@.segs == dir@.segs.push((#[trigger] out@[a]).0@)
                            && s[b].1 == out@[a].1,
                forall|b: int|
                    0 <= b < i && (#[trigger] s[b]).0@.segs.len() == dir@.segs.len() + 1
                        && is_seg_prefix(dir@.segs, s[b].0@.segs) ==> exists|a: int|
                        0 <= a < out@.len() && (#[trigger] out@[a]).0@ == s[b].0@.segs.last()
                            && out@[a].1 == s[b].1,
                forall|a1: int, a2: int|
                    0 <= a1 < a2 < out@.len() ==> (#[trigger] out@[a1]).0@
                        != (#[trigger] out@[a2]).0@,
            decreases s.len() - i,
        {
            let ghost out0 = out@;
            let e = &self.entries[i];
            let pushed_here = e.0.seg_count() >= 1 && e.0.seg_count() - 1 == dir.seg_count()
                && e.0.starts_with(dir);
            if pushed_here {
                let segs = e.0.segments();
                let child_name = segs[segs.len() - 1].clone();
                proof {
                    assert(e.0@.segs =~= dir@.segs.push(e.0@.segs.last())) by {
                        assert(e.0@.segs.take(dir@.segs.len() as int) =~= dir@.segs);
                    }
                    assert(segs.deep_view()[segs@.len() - 1] == segs@[segs@.len() - 1]@);
                    assert forall|a: int|
                        0 <= a < out@.len() implies (#[trigger] out@[a]).0@
                            != e.0@.segs.last() by {
                        let b = choose|b: int|
                            0 <= b < i && s[b].0@.segs == dir@.segs.push((#[trigger] out@[a]).0@)
                                && s[b].1 == out@[a].1;
                        if out@[a].0@ == e.0@.segs.last() {
                            assert(s[b].0@.segs == s[i as int].0@.segs);
                        }
                    }
                }
                out.push((child_name, e.1));
            } else {
                proof {
                    assert(!(s[i as int].0@.segs.len() == dir@.segs.len() + 1 && is_seg_prefix(
                        dir@.segs,
                        s[i as int].0@.segs,
                    )));
                }
            }
            proof {
                let oi = i as int;
                assert forall|b: int|
                    0 <= b < oi + 1 && (#[trigger] s[b]).0@.segs.len() == dir@.segs.len() + 1
                        && is_seg_prefix(dir@.segs, s[b].0@.segs) implies exists|a: int|
                    0 <= a < out@.len() && (#[trigger] out@[a]).0@ == s[b].0@.segs.last()
                        && out@[a].1 == s[b].1 by {
                    if b < oi {
                        let a = choose|a: int|
                            0 <= a < out0.len() && (#[trigger] out0[a]).0@ == s[b].0@.segs.last()
                                && out0[a].1 == s[b].1;
                        assert(out@[a] == out0[a]);
                        assert(out@[a].0@ == s[b].0@.segs.last() && out@[a].1 == s[b].1);
                    } else {
                        assert(out@[out@.len() - 1].0@ == s[b].0@.segs.last() && out@[out@.len()
                            - 1].1 == s[b].1);
                    }
                }
            }
            i += 1;
        }
        proof {
            assert forall|a: int|
                0 <= a < out@.len() implies self@.dom().contains(
                    dir@.segs.push((#[trigger] out@[a]).0@),
                ) && self@[dir@.segs.push(out@[a].0@)] == out@[a].1 by {
                let b = choose|b: int|
                    0 <= b < s.len() && (#[trigger] s[b]).0@.segs == dir@.segs.push(out@[a].0@)
                        && s[b].1 == out@[a].1;
                lemma_map_value(s, b);
            }
            assert forall|k: Seq<Seq<char>>|
                #[trigger] self@.dom().contains(k) && k.len() == dir@.segs.len() + 1
                    && is_seg_prefix(dir@.segs, k) implies exists|i: int|
                0 <= i < out@.len() && (#[trigger] out@[i]).0@ == k.last() && out@[i].1
                    == self@[k] by {
                lemma_map_contains(s, k);
                let b = choose|b: int| 0 <= b < s.len() && (#[trigger] s[b]).0@.segs == k;
                lemma_map_value(s, b);
            }
        }
        out
    }

    /// The path one segment up.
    fn parent_of(&self, p: &SysPath) -> (r: SysPath)
        requires
            p@.segs.len() >= 1,
            forall|j: int| 0 <= j < p@.segs.len() ==> (#[trigger] p@.segs[j]).len() > 0,
        ensures
            r@.abs == p@.abs,
            r@.segs == p@.segs.drop_last(),
    {
        let segs = p.segments();
        let mut r = SysPath::new(p.is_absolute());
        let mut i: usize = 0;
        while i < segs.len() - 1
            invariant
                p@.segs.len() >= 1,
                forall|j: int| 0 <= j < p@.segs.len() ==> (#[trigger] p@.segs[j]).len() > 0,
                segs.deep_view() == p@.segs,
                i <= segs.len() - 1,
                r@.abs == p@.abs,
                r@.segs =~= p@.segs.take(i as int),
            decreases segs.len() - 1 - i,
        {
            let ghost before = r@.segs;
            r.push(&segs[i]);
            proof {
                assert(segs.deep_view()[i as int] == segs@[i as int]@);
                assert(p@.segs[i as int].len() > 0);
                assert(r@.segs =~= before.push(p@.segs[i as int]));
                assert(r@.segs =~= p@.segs.take(i as int + 1));
            }
            i += 1;
        }
        proof {
            assert(p@.segs.take(p@.segs.len() - 1) =~= p@.segs.drop_last());
        }
        r
    }

    /// The path is absolute with only normal segments.
    fn is_absolute_normal(&self, p: &SysPath) -> (r: bool)
        ensures
            r == (p@.abs && segs_normal(p@.segs)),
    {
        if !p.is_absolute() {
            return false;
        }
        let segs = p.segments();
        let mut i: usize = 0;
        while i < segs.len()
            invariant
                segs.deep_view() == p@.segs,
                i <= segs.len(),
                forall|j: int| 0 <= j < i ==> seg_is_normal(#[trigger] p@.segs[j]),
            decreases segs.len() - i,
        {
            if !crate::paths::check_normal_seg(&segs[i]) {
                proof {
                    assert(segs.deep_view()[i as int] == segs@[i as int]@);
                }
                return false;
            }
            proof {
                assert(segs.deep_view()[i as int] == segs@[i as int]@);
            }
            i += 1;
        }
        true
    }
}

} // verus!
