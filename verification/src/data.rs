//! The registry of known vaults: the single source of truth for which
//! vaults exist, where each one's parent directory lies, and which
//! vault, if any, is currently entered.

use vstd::prelude::*;

use crate::paths::{item_name_ok, segs_normal, PathModel, SysPath};

verus! {

/// Mathematical model of the registry.
#[verifier::ext_equal]
pub ghost struct DataModel {
    pub current: Option<Seq<char>>,
    pub vaults: Seq<(Seq<char>, PathModel)>,
}

/// Some registered vault carries this name.
pub open spec fn has_key(s: Seq<(Seq<char>, PathModel)>, k: Seq<char>) -> bool {
    exists|i: int| 0 <= i < s.len() && (#[trigger] s[i]).0 == k
}

/// The position of the vault with this name.
pub open spec fn key_at(s: Seq<(Seq<char>, PathModel)>, k: Seq<char>) -> int {
    choose|i: int| 0 <= i < s.len() && (#[trigger] s[i]).0 == k
}

/// The recorded location of the vault with this name.
pub open spec fn loc_of(s: Seq<(Seq<char>, PathModel)>, k: Seq<char>) -> PathModel {
    s[key_at(s, k)].1
}

/// Well-formed registry: names are valid and unique, locations are
/// absolute normalized paths, and the entered vault, if any, is
/// registered.
pub open spec fn data_wf(m: DataModel) -> bool {
    &&& (forall|i: int, j: int|
        0 <= i < j < m.vaults.len() ==> (#[trigger] m.vaults[i]).0 != (#[trigger] m.vaults[j]).0)
    &&& (forall|i: int|
        0 <= i < m.vaults.len() ==> item_name_ok((#[trigger] m.vaults[i]).0)
            && m.vaults[i].1.abs && segs_normal(m.vaults[i].1.segs))
    &&& (m.current matches Some(c) ==> has_key(m.vaults, c))
}

/// The registry: the entered vault and the name-to-location listing.
#[derive(Debug)]
pub struct Data {
    current: Option<String>,
    vaults: Vec<(String, SysPath)>,
}

impl View for Data {
    type V = DataModel;

    closed spec fn view(&self) -> DataModel {
        DataModel {
            current: match self.current {
                Some(c) => Some(c@),
                None => None,
            },
            vaults: Seq::new(self.vaults@.len(), |i: int| (self.vaults@[i].0@, self.vaults@[i].1@)),
        }
    }
}

impl Default for Data {
    /// An empty registry: no vaults, none entered.
    fn default() -> (r: Self)
        ensures
            r@.current is None,
            r@.vaults =~= Seq::<(Seq<char>, PathModel)>::empty(),
            r.wf(),
    {
        let r = Data { current: None, vaults: Vec::new() };
        proof {
            assert(r@.vaults =~= Seq::<(Seq<char>, PathModel)>::empty());
        }
        r
    }
}

impl Data {
    /// The registry's fields are sound.
    pub open spec fn wf(self) -> bool {
        data_wf(self@)
    }

    /// An empty registry: no vaults, none entered.
    pub fn new() -> (r: Data)
        ensures
            r@.current is None,
            r@.vaults =~= Seq::<(Seq<char>, PathModel)>::empty(),
            r.wf(),
    {
        Data::default()
    }

    pub fn get_current_vault(&self) -> (r: Option<&String>)
        ensures
            match r {
                Some(n) => self@.current == Some(n@),
                None => self@.current is None,
            },
    {
        self.current.as_ref()
    }

    /// Enter the named vault, or leave every vault.
    pub fn set_current_vault(&mut self, vault: Option<String>)
        requires
            old(self).wf(),
            vault matches Some(v) ==> has_key(old(self)@.vaults, v@),
        ensures
            final(self).wf(),
            final(self)@.vaults == old(self)@.vaults,
            final(self)@.current == (match vault {
                Some(v) => Some(v@),
                None => None::<Seq<char>>,
            }),
    {
        self.current = vault;
        proof {
            assert(final(self)@.vaults =~= old(self)@.vaults);
        }
    }

    /// Every registered vault, in registration order.
    pub fn get_vaults(&self) -> (r: &Vec<(String, SysPath)>)
        ensures
            r@.len() == self@.vaults.len(),
            forall|i: int|
                0 <= i < r@.len() ==> ((#[trigger] r@[i]).0@ == self@.vaults[i].0 && r@[i].1@
                    == self@.vaults[i].1),
    {
        &self.vaults
    }

    /// The position of the vault with this name, if registered.
    pub fn index_of(&self, name: &String) -> (r: Option<usize>)
        requires
            self.wf(),
        ensures
            match r {
                Some(i) => i < self@.vaults.len() && self@.vaults[i as int].0 == name@ && i
                    == key_at(self@.vaults, name@),
                None => !has_key(self@.vaults, name@),
            },
    {
        let mut i: usize = 0;
        while i < self.vaults.len()
            invariant
                self.wf(),
                i <= self.vaults@.len(),
                forall|j: int| 0 <= j < i ==> (#[trigger] self@.vaults[j]).0 != name@,
            decreases self.vaults@.len() - i,
        {
            if crate::paths::string_eq(&self.vaults[i].0, name) {
                proof {
                    assert(self@.vaults[i as int].0 == name@);
                    let w = key_at(self@.vaults, name@);
                    assert(0 <= w < self@.vaults.len() && self@.vaults[w].0 == name@);
                    assert(w == i as int);
                }
                return Some(i);
            }
            proof {
                assert(self@.vaults[i as int].0 == self.vaults@[i as int].0@);
            }
            i += 1;
        }
        proof {
            if has_key(self@.vaults, name@) {
                let w = choose|w: int|
                    0 <= w < self@.vaults.len() && (#[trigger] self@.vaults[w]).0 == name@;
                assert(false);
            }
        }
        None
    }

    /// Where the named vault's parent directory lies, if registered.
    pub fn get_vault_location(&self, name: &String) -> (r: Option<&SysPath>)
        requires
            self.wf(),
        ensures
            match r {
                Some(p) => has_key(self@.vaults, name@) && p@ == loc_of(self@.vaults, name@),
                None => !has_key(self@.vaults, name@),
            },
    {
        match self.index_of(name) {
            Some(i) => Some(&self.vaults[i].1),
            None => None,
        }
    }

    pub fn vault_exists(&self, name: &String) -> (r: bool)
        requires
            self.wf(),
        ensures
            r == has_key(self@.vaults, name@),
    {
        match self.index_of(name) {
            Some(_) => true,
            None => false,
        }
    }

    /// Register a new vault; the caller has checked the name is free.
    pub fn add_vault(&mut self, name: String, location: SysPath)
        requires
            old(self).wf(),
            !has_key(old(self)@.vaults, name@),
            item_name_ok(name@),
            location@.abs,
            segs_normal(location@.segs),
        ensures
            final(self).wf(),
            final(self)@.current == old(self)@.current,
            final(self)@.vaults =~= old(self)@.vaults.push((name@, location@)),
    {
        let ghost oldm = self@;
        self.vaults.push((name, location));
        proof {
            assert(self@.vaults =~= oldm.vaults.push((self.vaults@.last().0@,
                self.vaults@.last().1@)));
            assert forall|i: int, j: int|
                0 <= i < j < self@.vaults.len() implies (#[trigger] self@.vaults[i]).0
                    != (#[trigger] self@.vaults[j]).0 by {
                if j == self@.vaults.len() - 1 {
                    if self@.vaults[i].0 == self@.vaults[j].0 {
                        assert(has_key(oldm.vaults, self@.vaults[j].0)) by {
                            assert(oldm.vaults[i].0 == self@.vaults[i].0);
                        }
                    }
                }
            }
            assert(data_wf(self@)) by {
                if let Some(c) = self@.current {
                    let w = choose|w: int|
                        0 <= w < oldm.vaults.len() && (#[trigger] oldm.vaults[w]).0 == c;
                    assert(self@.vaults[w].0 == c);
                }
            }
        }
    }

    /// Drop the named vault; leaves it if it was the entered one.
    pub fn remove_vault(&mut self, name: &String)
        requires
            old(self).wf(),
            has_key(old(self)@.vaults, name@),
        ensures
            final(self).wf(),
            final(self)@.vaults =~= old(self)@.vaults.remove(key_at(old(self)@.vaults, name@)),
            final(self)@.current == (if old(self)@.current == Some(name@) {
                None::<Seq<char>>
            } else {
                old(self)@.current
            }),
    {
        let idx = match self.index_of(name) {
            Some(i) => i,
            None => {
                proof {
                    assert(false);
                }
                0
            },
        };
        let clear = match self.get_current_vault() {
            Some(c) => crate::paths::string_eq(c, name),
            None => false,
        };
        if clear {
            self.current = None;
        }
        let ghost oldm = old(self)@;
        let ghost mid = self@;
        self.vaults.remove(idx);
        proof {
            assert(self@.vaults =~= oldm.vaults.remove(idx as int)) by {
                assert forall|a: int| 0 <= a < self@.vaults.len() implies #[trigger] self@.vaults[a]
                    == oldm.vaults.remove(idx as int)[a] by {
                    if a < idx {
                        assert(self.vaults@[a] == old(self).vaults@[a]);
                    } else {
                        assert(self.vaults@[a] == old(self).vaults@[a + 1]);
                    }
                }
            }
            assert forall|i: int, j: int|
                0 <= i < j < self@.vaults.len() implies (#[trigger] self@.vaults[i]).0
                    != (#[trigger] self@.vaults[j]).0 by {
                let i0 = if i < idx {
                    i
                } else {
                    i + 1
                };
                let j0 = if j < idx {
                    j
                } else {
                    j + 1
                };
                assert(self@.vaults[i] == oldm.vaults[i0]);
                assert(self@.vaults[j] == oldm.vaults[j0]);
            }
            assert(data_wf(self@)) by {
                assert(forall|a: int|
                    0 <= a < self@.vaults.len() ==> #[trigger] self@.vaults[a] == oldm.vaults[
                        if a < idx {
                            a
                        } else {
                            a + 1
                        }
                    ]);
                if let Some(c) = self@.current {
                    assert(c != name@);
                    let w = choose|w: int|
                        0 <= w < oldm.vaults.len() && (#[trigger] oldm.vaults[w]).0 == c;
                    assert(w != idx);
                    let w2 = if w < idx {
                        w
                    } else {
                        w - 1
                    };
                    assert(self@.vaults[w2].0 == c);
                }
            }
        }
    }

    /// Give the named vault a new name, keeping its place and location;
    /// follows the entered-vault pointer along.
    pub fn rename_vault(&mut self, name: &String, new_name: String)
        requires
            old(self).wf(),
            has_key(old(self)@.vaults, name@),
            !has_key(old(self)@.vaults, new_name@),
            item_name_ok(new_name@),
        ensures
            final(self).wf(),
            final(self)@.vaults =~= old(self)@.vaults.update(
                key_at(old(self)@.vaults, name@),
                (new_name@, loc_of(old(self)@.vaults, name@)),
            ),
            final(self)@.current == (if old(self)@.current == Some(name@) {
                Some(new_name@)
            } else {
                old(self)@.current
            }),
    {
        let idx = match self.index_of(name) {
            Some(i) => i,
            None => {
                proof {
                    assert(false);
                }
                0
            },
        };
        let follow = match self.get_current_vault() {
            Some(c) => crate::paths::string_eq(c, name),
            None => false,
        };
        if follow {
            self.current = Some(new_name.clone());
        }
        let ghost oldm = old(self)@;
        let entry = self.vaults.remove(idx);
        self.vaults.insert(idx, (new_name, entry.1));
        proof {
            assert(self@.vaults =~= oldm.vaults.update(
                idx as int,
                (self.vaults@[idx as int].0@, oldm.vaults[idx as int].1),
            )) by {
                assert forall|a: int|
                    0 <= a < self@.vaults.len() implies #[trigger] self@.vaults[a]
                        == oldm.vaults.update(
                        idx as int,
                        (self.vaults@[idx as int].0@, oldm.vaults[idx as int].1),
                    )[a] by {
                    if a < idx {
                        assert(self.vaults@[a] == old(self).vaults@[a]);
                    } else if a > idx {
                        assert(self.vaults@[a] == old(self).vaults@[a]);
                    }
                }
            }
            assert forall|i: int, j: int|
                0 <= i < j < self@.vaults.len() implies (#[trigger] self@.vaults[i]).0
                    != (#[trigger] self@.vaults[j]).0 by {
                if i != idx && j != idx {
                    assert(self@.vaults[i] == oldm.vaults[i]);
                    assert(self@.vaults[j] == oldm.vaults[j]);
                } else {
                    let other = if i == idx {
                        j
                    } else {
                        i
                    };
                    assert(self@.vaults[other] == oldm.vaults[other]);
                    if self@.vaults[other].0 == new_name@ {
                        assert(has_key(oldm.vaults, new_name@));
                    }
                }
            }
            assert(data_wf(self@)) by {
                assert(forall|a: int|
                    0 <= a < self@.vaults.len() && a != idx ==> #[trigger] self@.vaults[a]
                        == oldm.vaults[a]);
                if let Some(c) = self@.current {
                    if c == new_name@ {
                        assert(self@.vaults[idx as int].0 == c);
                    } else {
                        assert(oldm.current == Some(c));
                        let w = choose|w: int|
                            0 <= w < oldm.vaults.len() && (#[trigger] oldm.vaults[w]).0 == c;
                        assert(w != idx);
                        assert(self@.vaults[w].0 == c);
                    }
                }
            }
        }
    }

    /// Record the named vault's new location.
    pub fn set_vault_location(&mut self, name: &String, new_location: SysPath)
        requires
            old(self).wf(),
            has_key(old(self)@.vaults, name@),
            new_location@.abs,
            segs_normal(new_location@.segs),
        ensures
            final(self).wf(),
            final(self)@.current == old(self)@.current,
            final(self)@.vaults =~= old(self)@.vaults.update(
                key_at(old(self)@.vaults, name@),
                (name@, new_location@),
            ),
    {
        let idx = match self.index_of(name) {
            Some(i) => i,
            None => {
                proof {
                    assert(false);
                }
                0
            },
        };
        let ghost oldm = old(self)@;
        let entry = self.vaults.remove(idx);
        self.vaults.insert(idx, (entry.0, new_location));
        proof {
            assert(self@.vaults =~= oldm.vaults.update(
                idx as int,
                (name@, self.vaults@[idx as int].1@),
            )) by {
                assert forall|a: int|
                    0 <= a < self@.vaults.len() implies #[trigger] self@.vaults[a]
                        == oldm.vaults.update(
                        idx as int,
                        (name@, self.vaults@[idx as int].1@),
                    )[a] by {
                    if a < idx {
                        assert(self.vaults@[a] == old(self).vaults@[a]);
                    } else if a > idx {
                        assert(self.vaults@[a] == old(self).vaults@[a]);
                    }
                }
            }
            assert forall|i: int, j: int|
                0 <= i < j < self@.vaults.len() implies (#[trigger] self@.vaults[i]).0
                    != (#[trigger] self@.vaults[j]).0 by {
                if i != idx {
                    assert(self@.vaults[i] == oldm.vaults[i]);
                }
                if j != idx {
                    assert(self@.vaults[j] == oldm.vaults[j]);
                }
                assert(self@.vaults[idx as int].0 == oldm.vaults[idx as int].0);
            }
            assert(data_wf(self@)) by {
                assert(forall|a: int|
                    0 <= a < self@.vaults.len() ==> (#[trigger] self@.vaults[a]).0
                        == oldm.vaults[a].0);
                if let Some(c) = self@.current {
                    let w = choose|w: int|
                        0 <= w < oldm.vaults.len() && (#[trigger] oldm.vaults[w]).0 == c;
                    assert(self@.vaults[w].0 == c);
                }
            }
        }
    }
}

} // verus!
