//! What holds of the metadata server as a whole.

use vstd::prelude::*;
use vstd::utf8::*;

use crate::error::{Code, StatusView};
use crate::hash::{bids, law_ranking_is_permutation, picked, ranking};
use crate::id::{holders, BlockIdx, BlockKey, Generation, InodeId, InodeKind, PlacementView};
use crate::meta::directory::{is_sorted, lemma_names_up_to, names_up_to, Listing};
use crate::meta::model::{
    block_deletes, changed_inode, live, new_dir, new_file, new_placement, next, node_deletes,
    node_index, not_found, shrinks, up_nodes, CloseArgs, InodeView, MakeArgs, MetaView, MoveArgs,
    NodeView,
};
use crate::meta::service::{cookie_name, next_cookie};
use crate::meta::state::lemma_node_index;
use crate::names::{law_name_order_total, lemma_encoding_injective, name_before};
use crate::proto::{Attr, DirEntryView, NodeStatus, SetAttrReq};
use crate::time::Timestamp;

verus! {

impl MetaView {
    /// Whether the directory `d` has an entry named `n`.
    pub open spec fn has_entry(self, d: u64, n: Seq<char>) -> bool {
        self.dirs.contains_key(d) && self.dirs[d].contains_key(n)
    }

    /// The names under which the directory `d` holds directories.
    pub open spec fn subdirs(self, d: u64) -> Set<Seq<char>> {
        Set::new(
            |n: Seq<char>|
                self.has_entry(d, n) && self.kind_of(self.dirs[d][n]) == Some(InodeKind::Dir),
        )
    }

    /// The directories are the inodes of that kind, every entry stands for an
    /// inode, and no two for the same.
    pub open spec fn entries_sound(self) -> bool {
        &&& forall|k: u64|
            #![trigger self.dirs.contains_key(k)]
            #![trigger self.kind_of(k)]
            self.dirs.contains_key(k) <==> self.kind_of(k) == Some(InodeKind::Dir)
        &&& forall|d: u64, n: Seq<char>| #[trigger]
            self.has_entry(d, n) ==> self.inodes.contains_key(self.dirs[d][n])
        &&& forall|d1: u64, n1: Seq<char>, d2: u64, n2: Seq<char>|
            #![trigger self.has_entry(d1, n1), self.has_entry(d2, n2)]
            self.has_entry(d1, n1) && self.has_entry(d2, n2) && self.dirs[d1][n1]
                == self.dirs[d2][n2] ==> d1 == d2 && n1 == n2
    }

    /// The root is a directory that has no entry, and every inode knows its
    /// number, given out before.
    pub open spec fn numbers_sound(self) -> bool {
        &&& self.kind_of(1) == Some(InodeKind::Dir)
        &&& forall|k: u64|
            #![trigger self.inodes.contains_key(k)]
            self.inodes.contains_key(k) ==> self.inodes[k].ino == k && k < self.next_ino
        &&& forall|d: u64, n: Seq<char>| #[trigger]
            self.has_entry(d, n) ==> self.dirs[d][n] != 1
    }

    /// The inodes and the directories fit together.
    pub open spec fn tree_consistent(self) -> bool {
        self.entries_sound() && self.numbers_sound()
    }

    /// Every directory counts two links and one for each directory in it.
    pub open spec fn links_counted(self) -> bool {
        forall|d: u64|
            #![trigger self.subdirs(d)]
            self.dirs.contains_key(d) ==> self.subdirs(d).finite() && self.inodes[d].nlink == 2
                + self.subdirs(d).len()
    }

    /// Every handle is kept under its own number, given out before.
    pub open spec fn handles_consistent(self) -> bool {
        forall|h: u64|
            #![trigger self.open_handles.contains_key(h)]
            self.open_handles.contains_key(h) ==> self.open_handles[h].fh == h && h < self.next_fh
    }

    /// The root is a directory; every inode knows its number; the directories
    /// are the inodes of that kind; every entry stands for an inode other than
    /// the root, and no two for the same; links are counted; handles are known
    /// by their numbers.
    pub open spec fn consistent(self) -> bool {
        &&& self.tree_consistent()
        &&& self.links_counted()
        &&& self.handles_consistent()
    }
}

/// Directories with the same entries of the same kinds hold the same
/// directories.
proof fn lemma_same_subdirs(s: MetaView, t: MetaView, d: u64)
    requires
        s.dirs.contains_key(d) == t.dirs.contains_key(d),
        s.dirs.contains_key(d) ==> s.dirs[d] == t.dirs[d],
        forall|n: Seq<char>| #[trigger]
            s.has_entry(d, n) ==> s.kind_of(s.dirs[d][n]) == t.kind_of(s.dirs[d][n]),
    ensures
        t.subdirs(d) == s.subdirs(d),
{
    assert forall|n: Seq<char>| t.subdirs(d).contains(n) <==> s.subdirs(d).contains(n) by {
        assert(s.has_entry(d, n) == t.has_entry(d, n));
    }
    assert(t.subdirs(d) =~= s.subdirs(d));
}

/// A changed inode that stays what it is keeps the server consistent.
proof fn lemma_inode_replaced(s: MetaView, t: MetaView, ino: u64)
    requires
        s.consistent(),
        s.inodes.contains_key(ino),
        t == s.with_inode(ino, t.inodes[ino]),
        t.inodes[ino].ino == ino,
        t.inodes[ino].kind == s.inodes[ino].kind,
        t.inodes[ino].nlink == s.inodes[ino].nlink,
    ensures
        t.consistent(),
{
    assert forall|k: u64| #[trigger] t.kind_of(k) == s.kind_of(k) by {}
    assert forall|k: u64| #![trigger t.inodes.contains_key(k)] t.inodes.contains_key(k)
        == s.inodes.contains_key(k) by {}
    assert forall|d: u64, n: Seq<char>| #[trigger] t.has_entry(d, n) == s.has_entry(d, n) by {}
    assert(t.tree_consistent()) by {
        assert forall|k: u64|
            #![trigger t.dirs.contains_key(k)]
            #![trigger t.kind_of(k)]
            t.dirs.contains_key(k) <==> t.kind_of(k) == Some(InodeKind::Dir) by {
            assert(s.dirs.contains_key(k) <==> s.kind_of(k) == Some(InodeKind::Dir));
        }
    }
    assert forall|d: u64| #![trigger t.subdirs(d)] t.dirs.contains_key(d) implies t.subdirs(
        d,
    ).finite() && t.inodes[d].nlink == 2 + t.subdirs(d).len() by {
        lemma_same_subdirs(s, t, d);
    }
}

/// The server is consistent when it starts.
pub proof fn law_initial_consistent(replication_factor: nat, now: Timestamp)
    ensures
        MetaView::initial(replication_factor, now).consistent(),
{
    let s = MetaView::initial(replication_factor, now);
    assert forall|d: u64| #![trigger s.subdirs(d)] s.dirs.contains_key(d) implies s.subdirs(
        d,
    ).finite() && s.inodes[d].nlink == 2 + s.subdirs(d).len() by {
        assert(s.subdirs(d) =~= Set::empty());
    }
}

/// A change of attributes keeps the server consistent.
pub proof fn law_set_attr_consistent(s: MetaView, r: SetAttrReq, now: Timestamp)
    requires
        s.consistent(),
    ensures
        s.set_attr(r, now).0.consistent(),
{
    if s.inodes.contains_key(r.ino) {
        lemma_inode_replaced(s, s.set_attr(r, now).0, r.ino);
    }
}

/// Making a file keeps the server consistent, as long as numbers are left.
pub proof fn law_create_consistent(s: MetaView, a: MakeArgs, now: Timestamp)
    requires
        s.consistent(),
        s.next_ino < u64::MAX,
        s.next_fh < u64::MAX,
    ensures
        s.create(a, now).0.consistent(),
{
    if s.make_refusal(a.parent, a.name) is None {
        let t = s.create(a, now).0;
        let ino = s.next_ino;
        assert(!s.inodes.contains_key(ino));
        assert(s.kind_of(ino) is None);
        assert(s.dirs.contains_key(a.parent));
        assert(s.kind_of(a.parent) is Some);
        assert forall|k: u64| k != ino implies #[trigger] t.kind_of(k) == s.kind_of(k) by {}
        assert forall|d: u64, n: Seq<char>| #[trigger]
            t.has_entry(d, n) == (s.has_entry(d, n) || (d == a.parent && n == a.name)) by {}
        assert forall|d: u64, n: Seq<char>| #[trigger] s.has_entry(d, n) implies t.dirs[d][n]
            == s.dirs[d][n] && t.dirs[d][n] != ino by {
            assert(s.inodes.contains_key(s.dirs[d][n]));
        }
        assert(t.tree_consistent()) by {
            assert forall|k: u64|
                #![trigger t.dirs.contains_key(k)]
                #![trigger t.kind_of(k)]
                t.dirs.contains_key(k) <==> t.kind_of(k) == Some(InodeKind::Dir) by {
                assert(s.dirs.contains_key(k) <==> s.kind_of(k) == Some(InodeKind::Dir));
            }
            assert(t.kind_of(1) == s.kind_of(1));
            assert forall|d1: u64, n1: Seq<char>, d2: u64, n2: Seq<char>|
                #![trigger t.has_entry(d1, n1), t.has_entry(d2, n2)]
                t.has_entry(d1, n1) && t.has_entry(d2, n2) && t.dirs[d1][n1]
                    == t.dirs[d2][n2] implies d1 == d2 && n1 == n2 by {
                assert(s.has_entry(d1, n1) || (d1 == a.parent && n1 == a.name));
                assert(s.has_entry(d2, n2) || (d2 == a.parent && n2 == a.name));
            }
            assert forall|d: u64, n: Seq<char>| #[trigger] t.has_entry(d, n) implies
                t.inodes.contains_key(t.dirs[d][n]) && t.dirs[d][n] != 1 by {
                assert(s.has_entry(d, n) || (d == a.parent && n == a.name));
                assert(s.inodes.contains_key(1));
            }
        }
        assert forall|d: u64| #![trigger t.subdirs(d)] t.dirs.contains_key(d) implies t.subdirs(
            d,
        ).finite() && t.inodes[d].nlink == 2 + t.subdirs(d).len() by {
            assert forall|n: Seq<char>| t.subdirs(d).contains(n) <==> s.subdirs(d).contains(n) by {
                assert(t.has_entry(d, n) == (s.has_entry(d, n) || (d == a.parent && n
                    == a.name)));
            }
            assert(t.subdirs(d) =~= s.subdirs(d));
            assert(s.kind_of(d) is Some);
        }
    }
}

/// A server with one directory more, whose parent counts one link more.
proof fn lemma_dir_made(s: MetaView, a: MakeArgs, now: Timestamp)
    requires
        s.entries_sound(),
        s.links_counted(),
        !s.inodes.contains_key(s.next_ino),
        s.link_fits(a.parent),
        s.make_refusal(a.parent, a.name) is None,
    ensures
        s.mkdir(a, now).0.entries_sound(),
        s.mkdir(a, now).0.links_counted(),
        s.numbers_sound() && s.next_ino < u64::MAX ==> s.mkdir(a, now).0.numbers_sound(),
{
    let t = s.mkdir(a, now).0;
    let ino = s.next_ino;
    assert(s.kind_of(ino) is None);
    assert(!s.dirs.contains_key(ino));
    assert(s.dirs.contains_key(a.parent));
    assert(s.kind_of(a.parent) == Some(InodeKind::Dir));
    assert(s.inodes.contains_key(a.parent) && a.parent != ino);
    assert forall|k: u64| k != ino implies #[trigger] t.kind_of(k) == s.kind_of(k) by {}
    assert(t.kind_of(ino) == Some(InodeKind::Dir));
    assert forall|d: u64, n: Seq<char>| #[trigger]
        t.has_entry(d, n) == (s.has_entry(d, n) || (d == a.parent && n == a.name)) by {}
    assert forall|d: u64, n: Seq<char>| #[trigger] s.has_entry(d, n) implies t.dirs[d][n]
        == s.dirs[d][n] && t.dirs[d][n] != ino by {
        assert(s.inodes.contains_key(s.dirs[d][n]));
    }
    assert(t.entries_sound()) by {
        assert forall|k: u64|
            #![trigger t.dirs.contains_key(k)]
            #![trigger t.kind_of(k)]
            t.dirs.contains_key(k) <==> t.kind_of(k) == Some(InodeKind::Dir) by {
            assert(s.dirs.contains_key(k) <==> s.kind_of(k) == Some(InodeKind::Dir));
        }
        assert forall|d1: u64, n1: Seq<char>, d2: u64, n2: Seq<char>|
            #![trigger t.has_entry(d1, n1), t.has_entry(d2, n2)]
            t.has_entry(d1, n1) && t.has_entry(d2, n2) && t.dirs[d1][n1]
                == t.dirs[d2][n2] implies d1 == d2 && n1 == n2 by {
            assert(s.has_entry(d1, n1) || (d1 == a.parent && n1 == a.name));
            assert(s.has_entry(d2, n2) || (d2 == a.parent && n2 == a.name));
        }
        assert forall|d: u64, n: Seq<char>| #[trigger] t.has_entry(d, n) implies
            t.inodes.contains_key(t.dirs[d][n]) by {
            assert(s.has_entry(d, n) || (d == a.parent && n == a.name));
        }
    }
    if s.numbers_sound() && s.next_ino < u64::MAX {
        assert(t.kind_of(1) == s.kind_of(1));
        assert(s.inodes.contains_key(1));
        assert forall|k: u64|
            #![trigger t.inodes.contains_key(k)]
            t.inodes.contains_key(k) implies t.inodes[k].ino == k && k < t.next_ino by {
            assert(k == ino || s.inodes.contains_key(k));
        }
        assert forall|d: u64, n: Seq<char>| #[trigger] t.has_entry(d, n) implies t.dirs[d][n]
            != 1 by {
            assert(s.has_entry(d, n) || (d == a.parent && n == a.name));
        }
    }
    assert forall|d: u64| #![trigger t.subdirs(d)] t.dirs.contains_key(d) implies t.subdirs(
        d,
    ).finite() && t.inodes[d].nlink == 2 + t.subdirs(d).len() by {
        if d == ino {
            assert forall|n: Seq<char>| !t.subdirs(d).contains(n) by {
                assert(t.has_entry(d, n) == (s.has_entry(d, n) || (d == a.parent && n
                    == a.name)));
            }
            assert(t.subdirs(d) =~= Set::empty());
        } else {
            assert(s.dirs.contains_key(d));
            let was = s.subdirs(d);
            let want = if d == a.parent {
                was.insert(a.name)
            } else {
                was
            };
            assert forall|n: Seq<char>| t.subdirs(d).contains(n) <==> want.contains(n) by {
                assert(t.has_entry(d, n) == (s.has_entry(d, n) || (d == a.parent && n
                    == a.name)));
            }
            assert(t.subdirs(d) =~= want);
            assert(!was.contains(a.name) || d != a.parent) by {
                assert(!s.has_entry(a.parent, a.name));
            }
        }
    }
}

/// Making a directory keeps the server consistent, as long as numbers are left
/// and its parent can count the link.
pub proof fn law_mkdir_consistent(s: MetaView, a: MakeArgs, now: Timestamp)
    requires
        s.consistent(),
        s.next_ino < u64::MAX,
        s.link_fits(a.parent),
    ensures
        s.mkdir(a, now).0.consistent(),
{
    if s.make_refusal(a.parent, a.name) is None {
        assert(!s.inodes.contains_key(s.next_ino));
        lemma_dir_made(s, a, now);
    }
}

/// Removing a directory that was just made undoes the making, but that its
/// number is not given out again. The number was not in use, and the parent can
/// count the link.
pub proof fn law_rmdir_undoes_mkdir(s: MetaView, a: MakeArgs, now: Timestamp)
    requires
        !s.inodes.contains_key(s.next_ino),
        !s.dirs.contains_key(s.next_ino),
        s.link_fits(a.parent),
        s.mkdir(a, now).1 is Ok,
    ensures
        s.mkdir(a, now).0.rmdir(a.parent, a.name).1 is Ok,
        s.mkdir(a, now).0.rmdir(a.parent, a.name).0 == (MetaView {
            next_ino: next(s.next_ino),
            ..s
        }),
{
    let ino = s.next_ino;
    let t = s.mkdir(a, now).0;
    let u = t.rmdir(a.parent, a.name).0;
    assert(t.entry(a.parent, a.name) == Some(ino));
    assert(t.dirs[ino] =~= Map::<Seq<char>, u64>::empty());
    assert(u.dirs[a.parent] =~= s.dirs[a.parent]);
    assert(u.dirs =~= s.dirs);
    assert(u.inodes[a.parent] =~= s.inodes[a.parent]);
    assert(u.inodes =~= s.inodes);
    assert(u =~= MetaView { next_ino: next(s.next_ino), ..s });
}

/// Removing a file keeps the server consistent.
pub proof fn law_unlink_consistent(s: MetaView, parent: u64, name: Seq<char>)
    requires
        s.consistent(),
    ensures
        s.unlink(parent, name).0.consistent(),
{
    if s.unlink(parent, name).1 is Ok {
        let t = s.unlink(parent, name).0;
        let ino = s.dirs[parent][name];
        assert(s.has_entry(parent, name));
        lemma_entry_removed(s, t, parent, name);
        assert(t.tree_consistent());
        assert forall|d: u64| #![trigger t.subdirs(d)] t.dirs.contains_key(d) implies t.subdirs(
            d,
        ).finite() && t.inodes[d].nlink == 2 + t.subdirs(d).len() by {
            assert forall|n: Seq<char>| t.subdirs(d).contains(n) <==> s.subdirs(d).contains(n) by {
                assert(t.has_entry(d, n) == (s.has_entry(d, n) && !(d == parent && n == name)));
            }
            assert(t.subdirs(d) =~= s.subdirs(d));
            assert(s.kind_of(d) == Some(InodeKind::Dir));
        }
    }
}

/// A server without one entry and without what it stood for.
proof fn lemma_entry_removed(s: MetaView, t: MetaView, parent: u64, name: Seq<char>)
    requires
        s.entries_sound(),
        s.has_entry(parent, name),
        forall|k: u64| #[trigger]
            t.inodes.contains_key(k) <==> s.inodes.contains_key(k) && k != s.dirs[parent][name],
        forall|k: u64| #[trigger]
            t.inodes.contains_key(k) ==> t.inodes[k].ino == s.inodes[k].ino && t.inodes[k].kind
                == s.inodes[k].kind,
        forall|k: u64| #[trigger]
            t.dirs.contains_key(k) <==> s.dirs.contains_key(k) && k != s.dirs[parent][name],
        forall|k: u64| #[trigger]
            t.dirs.contains_key(k) ==> t.dirs[k] == if k == parent {
                s.dirs[k].remove(name)
            } else {
                s.dirs[k]
            },
        s.dirs.contains_key(s.dirs[parent][name]) ==> s.dirs[s.dirs[parent][name]] == Map::<
            Seq<char>,
            u64,
        >::empty(),
        t.next_ino == s.next_ino,
    ensures
        t.entries_sound(),
        s.numbers_sound() ==> t.numbers_sound(),
        forall|d: u64, n: Seq<char>| #[trigger]
            t.has_entry(d, n) == (s.has_entry(d, n) && !(d == parent && n == name)),
        forall|d: u64, n: Seq<char>| #[trigger]
            t.has_entry(d, n) ==> t.dirs[d][n] == s.dirs[d][n] && t.kind_of(t.dirs[d][n])
                == s.kind_of(s.dirs[d][n]),
{
    let ino = s.dirs[parent][name];
    assert forall|k: u64| k != ino implies #[trigger] t.kind_of(k) == s.kind_of(k) by {
        assert(t.inodes.contains_key(k) <==> s.inodes.contains_key(k));
    }
    assert(t.kind_of(ino) is None) by {
        assert(!t.inodes.contains_key(ino));
    }
    assert forall|d: u64, n: Seq<char>| #[trigger]
        t.has_entry(d, n) == (s.has_entry(d, n) && !(d == parent && n == name)) by {
        if d == ino && s.has_entry(d, n) {
            assert(s.dirs[ino].contains_key(n));
        }
        assert(t.dirs.contains_key(d) <==> s.dirs.contains_key(d) && d != ino);
    }
    assert forall|d: u64, n: Seq<char>| #[trigger] t.has_entry(d, n) implies t.dirs[d][n]
        == s.dirs[d][n] && t.kind_of(t.dirs[d][n]) == s.kind_of(s.dirs[d][n])
        && t.inodes.contains_key(t.dirs[d][n]) by {
        assert(s.has_entry(d, n));
        assert(s.dirs[d][n] != ino);
        assert(s.inodes.contains_key(s.dirs[d][n]));
    }
    assert forall|k: u64|
        #![trigger t.dirs.contains_key(k)]
        #![trigger t.kind_of(k)]
        t.dirs.contains_key(k) <==> t.kind_of(k) == Some(InodeKind::Dir) by {
        assert(s.dirs.contains_key(k) <==> s.kind_of(k) == Some(InodeKind::Dir));
    }
    assert forall|d1: u64, n1: Seq<char>, d2: u64, n2: Seq<char>|
        #![trigger t.has_entry(d1, n1), t.has_entry(d2, n2)]
        t.has_entry(d1, n1) && t.has_entry(d2, n2) && t.dirs[d1][n1] == t.dirs[d2][n2] implies d1
        == d2 && n1 == n2 by {
        assert(s.has_entry(d1, n1) && s.has_entry(d2, n2));
    }
    if s.numbers_sound() {
        assert(ino != 1);
        assert(t.kind_of(1) == s.kind_of(1));
        assert forall|k: u64|
            #![trigger t.inodes.contains_key(k)]
            t.inodes.contains_key(k) implies t.inodes[k].ino == k && k < t.next_ino by {
            assert(s.inodes.contains_key(k));
        }
        assert forall|d: u64, n: Seq<char>| #[trigger] t.has_entry(d, n) implies t.dirs[d][n]
            != 1 by {
            assert(s.has_entry(d, n));
        }
    }
}

/// Removing a directory keeps the server consistent.
pub proof fn law_rmdir_consistent(s: MetaView, parent: u64, name: Seq<char>)
    requires
        s.consistent(),
    ensures
        s.rmdir(parent, name).0.consistent(),
{
    if s.rmdir(parent, name).1 is Ok {
        let t = s.rmdir(parent, name).0;
        assert(s.has_entry(parent, name));
        lemma_dir_removed(s, t, parent, name);
    }
}

/// A server without one empty directory, whose parent counts one link less.
proof fn lemma_dir_removed(s: MetaView, t: MetaView, parent: u64, name: Seq<char>)
    requires
        s.entries_sound(),
        s.links_counted(),
        s.has_entry(parent, name),
        s.dirs.contains_key(s.dirs[parent][name]),
        s.dirs[s.dirs[parent][name]] == Map::<Seq<char>, u64>::empty(),
        t == ({
            let ino = s.dirs[parent][name];
            MetaView {
                dirs: s.dirs.remove(ino),
                inodes: s.inodes.remove(ino),
                ..s
            }.without_entry(parent, name).link_dropped(parent)
        }),
    ensures
        t.entries_sound(),
        t.links_counted(),
        s.numbers_sound() ==> t.numbers_sound(),
        t.open_handles == s.open_handles && t.next_fh == s.next_fh,
        forall|d: u64, n: Seq<char>| #[trigger]
            t.has_entry(d, n) == (s.has_entry(d, n) && !(d == parent && n == name)),
        forall|d: u64, n: Seq<char>| #[trigger]
            t.has_entry(d, n) ==> t.dirs[d][n] == s.dirs[d][n],
{
    let ino = s.dirs[parent][name];
    assert(s.kind_of(ino) == Some(InodeKind::Dir));
    assert(s.kind_of(parent) == Some(InodeKind::Dir));
    assert(parent != ino) by {
        assert(s.dirs[parent].contains_key(name));
    }
    lemma_entry_removed(s, t, parent, name);
    assert forall|d: u64| #![trigger t.subdirs(d)] t.dirs.contains_key(d) implies t.subdirs(
        d,
    ).finite() && t.inodes[d].nlink == 2 + t.subdirs(d).len() by {
        let was = s.subdirs(d);
        let want = if d == parent {
            was.remove(name)
        } else {
            was
        };
        assert forall|n: Seq<char>| t.subdirs(d).contains(n) <==> want.contains(n) by {
            assert(t.has_entry(d, n) == (s.has_entry(d, n) && !(d == parent && n == name)));
        }
        assert(t.subdirs(d) =~= want);
        assert(s.kind_of(d) == Some(InodeKind::Dir));
        assert(d == parent ==> was.contains(name));
    }
}

/// A server in which one entry stands in another place.
proof fn lemma_entry_moved(s: MetaView, t: MetaView, a: MoveArgs)
    requires
        s.entries_sound(),
        s.links_counted(),
        s.has_entry(a.src_parent, a.src_name),
        s.dirs.contains_key(a.dst_parent),
        !s.has_entry(a.dst_parent, a.dst_name),
        ({
            let src = s.dirs[a.src_parent][a.src_name];
            let moved = s.without_entry(a.src_parent, a.src_name).with_entry(
                a.dst_parent,
                a.dst_name,
                src,
            );
            if s.kind_of(src) == Some(InodeKind::Dir) && a.src_parent != a.dst_parent {
                s.link_fits(a.dst_parent) && t == moved.link_dropped(a.src_parent).link_added(
                    a.dst_parent,
                )
            } else {
                t == moved
            }
        }),
    ensures
        t.entries_sound(),
        t.links_counted(),
        s.numbers_sound() ==> t.numbers_sound(),
        t.open_handles == s.open_handles && t.next_fh == s.next_fh,
        forall|d: u64, n: Seq<char>| #[trigger]
            t.has_entry(d, n) == ((s.has_entry(d, n) && !(d == a.src_parent && n == a.src_name))
                || (d == a.dst_parent && n == a.dst_name)),
        t.dirs[a.dst_parent][a.dst_name] == s.dirs[a.src_parent][a.src_name],
        forall|d: u64, n: Seq<char>| #[trigger]
            t.has_entry(d, n) && !(d == a.dst_parent && n == a.dst_name) ==> t.dirs[d][n]
                == s.dirs[d][n],
{
    let sp = a.src_parent;
    let sn = a.src_name;
    let dp = a.dst_parent;
    let dn = a.dst_name;
    let src = s.dirs[sp][sn];
    assert(s.kind_of(sp) == Some(InodeKind::Dir));
    assert(s.kind_of(dp) == Some(InodeKind::Dir));
    assert forall|k: u64| #[trigger] t.kind_of(k) == s.kind_of(k) by {}
    assert forall|k: u64| #[trigger] t.inodes.contains_key(k) == s.inodes.contains_key(k) by {}
    assert forall|k: u64| #[trigger] t.dirs.contains_key(k) == s.dirs.contains_key(k) by {}
    assert forall|d: u64, n: Seq<char>| #[trigger]
        t.has_entry(d, n) == ((s.has_entry(d, n) && !(d == sp && n == sn)) || (d == dp && n
            == dn)) by {}
    assert forall|d: u64, n: Seq<char>| #[trigger] t.has_entry(d, n) && !(d == dp && n
        == dn) implies t.dirs[d][n] == s.dirs[d][n] && s.has_entry(d, n) by {}
    assert(t.entries_sound()) by {
        assert forall|k: u64|
            #![trigger t.dirs.contains_key(k)]
            #![trigger t.kind_of(k)]
            t.dirs.contains_key(k) <==> t.kind_of(k) == Some(InodeKind::Dir) by {
            assert(s.dirs.contains_key(k) <==> s.kind_of(k) == Some(InodeKind::Dir));
        }
        assert forall|d: u64, n: Seq<char>| #[trigger] t.has_entry(d, n) implies
            t.inodes.contains_key(t.dirs[d][n]) by {
            if d == dp && n == dn {
                assert(s.has_entry(sp, sn));
            } else {
                assert(s.has_entry(d, n));
            }
            assert(t.inodes.contains_key(t.dirs[d][n]) == s.inodes.contains_key(t.dirs[d][n]));
        }
        assert forall|d1: u64, n1: Seq<char>, d2: u64, n2: Seq<char>|
            #![trigger t.has_entry(d1, n1), t.has_entry(d2, n2)]
            t.has_entry(d1, n1) && t.has_entry(d2, n2) && t.dirs[d1][n1]
                == t.dirs[d2][n2] implies d1 == d2 && n1 == n2 by {
            let first = d1 == dp && n1 == dn;
            let second = d2 == dp && n2 == dn;
            if !first {
                assert(s.has_entry(d1, n1) && !(d1 == sp && n1 == sn));
            }
            if !second {
                assert(s.has_entry(d2, n2) && !(d2 == sp && n2 == sn));
            }
            assert(s.has_entry(sp, sn));
        }
    }
    assert(s.numbers_sound() ==> t.numbers_sound()) by {
        if s.numbers_sound() {
            assert(t.kind_of(1) == s.kind_of(1));
            assert forall|k: u64|
                #![trigger t.inodes.contains_key(k)]
                t.inodes.contains_key(k) implies t.inodes[k].ino == k && k < t.next_ino by {
                assert(s.inodes.contains_key(k));
            }
            assert forall|d: u64, n: Seq<char>| #[trigger] t.has_entry(d, n) implies t.dirs[d][n]
                != 1 by {
                if d == dp && n == dn {
                    assert(s.has_entry(sp, sn));
                } else {
                    assert(s.has_entry(d, n));
                }
            }
        }
    }
    assert forall|d: u64| #![trigger t.subdirs(d)] t.dirs.contains_key(d) implies t.subdirs(
        d,
    ).finite() && t.inodes[d].nlink == 2 + t.subdirs(d).len() by {
        let is_dir = s.kind_of(src) == Some(InodeKind::Dir);
        let was = s.subdirs(d);
        let left = if is_dir && d == sp {
            was.remove(sn)
        } else {
            was
        };
        let want = if is_dir && d == dp {
            left.insert(dn)
        } else {
            left
        };
        assert forall|n: Seq<char>| t.subdirs(d).contains(n) <==> want.contains(n) by {
            assert(t.has_entry(d, n) == ((s.has_entry(d, n) && !(d == sp && n == sn)) || (d == dp
                && n == dn)));
            assert(t.kind_of(t.dirs[d][n]) == s.kind_of(t.dirs[d][n]));
        }
        assert(t.subdirs(d) =~= want);
        assert(s.kind_of(d) == Some(InodeKind::Dir));
        assert(is_dir && d == sp ==> was.contains(sn));
        assert(d == dp ==> !was.contains(dn)) by {
            assert(!s.has_entry(dp, dn));
        }
        assert(s.dirs.contains_key(d));
    }
}

/// With its destination out of the way the server is consistent, and the
/// entry to be moved is still there.
proof fn lemma_destination_cleared(s: MetaView, a: MoveArgs)
    requires
        s.entries_sound(),
        s.links_counted(),
        s.rename_refusal(a) is None,
        !a.stays(),
    ensures
        s.destination_cleared(a).entries_sound(),
        s.destination_cleared(a).links_counted(),
        s.numbers_sound() ==> s.destination_cleared(a).numbers_sound(),
        s.destination_cleared(a).open_handles == s.open_handles,
        s.destination_cleared(a).next_fh == s.next_fh,
        s.destination_cleared(a).dirs.contains_key(a.dst_parent),
        !s.destination_cleared(a).has_entry(a.dst_parent, a.dst_name),
        forall|d: u64, n: Seq<char>| #[trigger]
            s.destination_cleared(a).has_entry(d, n) == (s.has_entry(d, n) && !(d == a.dst_parent
                && n == a.dst_name)),
        forall|d: u64, n: Seq<char>| #[trigger]
            s.destination_cleared(a).has_entry(d, n) ==> s.destination_cleared(a).dirs[d][n]
                == s.dirs[d][n],
        s.destination_cleared(a).kind_of(s.dirs[a.src_parent][a.src_name]) == s.kind_of(
            s.dirs[a.src_parent][a.src_name],
        ),
{
    let t = s.destination_cleared(a);
    let dp = a.dst_parent;
    let dn = a.dst_name;
    assert(s.has_entry(a.src_parent, a.src_name));
    if s.has_entry(dp, dn) {
        let dst = s.dirs[dp][dn];
        assert(s.dirs[a.src_parent][a.src_name] != dst);
        assert(s.inodes.contains_key(dst));
        assert(s.dirs.contains_key(dst) ==> dst != dp) by {
            assert(s.dirs[dp].contains_key(dn));
            assert(s.dirs.contains_key(dst) <==> s.kind_of(dst) == Some(InodeKind::Dir));
        }
        if s.kind_of(dst) == Some(InodeKind::Dir) {
            assert(s.dirs.contains_key(dst));
            assert(t =~= MetaView {
                dirs: s.dirs.remove(dst),
                inodes: s.inodes.remove(dst),
                ..s
            }.without_entry(dp, dn).link_dropped(dp));
            lemma_dir_removed(s, t, dp, dn);
        } else {
            assert(!s.dirs.contains_key(dst)) by {
                assert(s.dirs.contains_key(dst) <==> s.kind_of(dst) == Some(InodeKind::Dir));
            }
            lemma_entry_removed(s, t, dp, dn);
            assert forall|d: u64| #![trigger t.subdirs(d)] t.dirs.contains_key(d) implies t.subdirs(
                d,
            ).finite() && t.inodes[d].nlink == 2 + t.subdirs(d).len() by {
                assert forall|n: Seq<char>| t.subdirs(d).contains(n) <==> s.subdirs(d).contains(
                    n,
                ) by {
                    assert(t.has_entry(d, n) == (s.has_entry(d, n) && !(d == dp && n == dn)));
                }
                assert(t.subdirs(d) =~= s.subdirs(d));
                assert(s.kind_of(d) == Some(InodeKind::Dir));
            }
        }
    } else {
        assert(t == s);
    }
}

/// A move that is carried out, seen in two steps: the destination is cleared,
/// and the entry is put there.
proof fn lemma_moved(s: MetaView, a: MoveArgs)
    requires
        s.entries_sound(),
        s.links_counted(),
        s.rename_fits(a),
        s.rename_refusal(a) is None,
        !a.stays(),
    ensures
        ({
            let t = s.rename(a).0;
            &&& t.entries_sound()
            &&& t.links_counted()
            &&& s.numbers_sound() ==> t.numbers_sound()
            &&& t.open_handles == s.open_handles && t.next_fh == s.next_fh
            &&& forall|d: u64, n: Seq<char>| #[trigger]
                t.has_entry(d, n) == ((s.has_entry(d, n) && !(d == a.src_parent && n
                    == a.src_name)) || (d == a.dst_parent && n == a.dst_name))
            &&& t.dirs[a.dst_parent][a.dst_name] == s.dirs[a.src_parent][a.src_name]
            &&& forall|d: u64, n: Seq<char>| #[trigger]
                t.has_entry(d, n) && !(d == a.dst_parent && n == a.dst_name) ==> t.dirs[d][n]
                    == s.dirs[d][n]
        }),
{
    lemma_destination_cleared(s, a);
    let c = s.destination_cleared(a);
    let t = s.rename(a).0;
    assert(s.has_entry(a.src_parent, a.src_name));
    assert(c.has_entry(a.src_parent, a.src_name));
    lemma_entry_moved(c, t, a);
    assert forall|d: u64, n: Seq<char>| #[trigger]
        t.has_entry(d, n) == ((s.has_entry(d, n) && !(d == a.src_parent && n == a.src_name)) || (d
            == a.dst_parent && n == a.dst_name)) by {
        assert(c.has_entry(d, n) == (s.has_entry(d, n) && !(d == a.dst_parent && n
            == a.dst_name)));
    }
    assert forall|d: u64, n: Seq<char>| #[trigger] t.has_entry(d, n) && !(d == a.dst_parent && n
        == a.dst_name) implies t.dirs[d][n] == s.dirs[d][n] by {
        assert(c.has_entry(d, n));
    }
}

/// A move keeps the server consistent, as long as the new parent can count the
/// link.
pub proof fn law_rename_consistent(s: MetaView, a: MoveArgs)
    requires
        s.consistent(),
        s.rename_fits(a),
    ensures
        s.rename(a).0.consistent(),
{
    if s.rename_refusal(a) is None && !a.stays() {
        lemma_moved(s, a);
        let t = s.rename(a).0;
        assert(t.handles_consistent()) by {
            assert forall|h: u64|
                #![trigger t.open_handles.contains_key(h)]
                t.open_handles.contains_key(h) implies t.open_handles[h].fh == h && h
                < t.next_fh by {
                assert(s.open_handles.contains_key(h));
            }
        }
    }
}

/// Moves, and the making and removing of directories, keep the count of the
/// links, wherever an entry is moved from and to, as long as a directory can
/// count one more. A new directory gets a number that no inode has.
pub proof fn law_links_stay_counted(
    s: MetaView,
    a: MoveArgs,
    m: MakeArgs,
    now: Timestamp,
)
    requires
        s.entries_sound(),
        s.links_counted(),
    ensures
        s.rename_fits(a) ==> s.rename(a).0.entries_sound() && s.rename(a).0.links_counted(),
        s.link_fits(m.parent) && !s.inodes.contains_key(s.next_ino) ==> s.mkdir(
            m,
            now,
        ).0.entries_sound() && s.mkdir(m, now).0.links_counted(),
        s.rmdir(m.parent, m.name).0.entries_sound(),
        s.rmdir(m.parent, m.name).0.links_counted(),
{
    if s.rename_fits(a) && s.rename_refusal(a) is None && !a.stays() {
        lemma_moved(s, a);
    }
    if s.link_fits(m.parent) && !s.inodes.contains_key(s.next_ino) && s.make_refusal(
        m.parent,
        m.name,
    ) is None {
        lemma_dir_made(s, m, now);
    }
    if s.rmdir(m.parent, m.name).1 is Ok {
        assert(s.has_entry(m.parent, m.name));
        lemma_dir_removed(s, s.rmdir(m.parent, m.name).0, m.parent, m.name);
    }
}

/// A move that is carried out puts what stood under the old name under the new
/// one; every other entry stays, but for the one that was moved onto. A move of
/// an entry to where it is changes nothing.
pub proof fn law_rename_moves(s: MetaView, a: MoveArgs)
    requires
        s.consistent(),
        s.rename_fits(a),
        s.rename(a).1 is Ok,
    ensures
        s.rename(a).0.entry(a.dst_parent, a.dst_name) == s.entry(a.src_parent, a.src_name),
        !a.stays() ==> s.rename(a).0.entry(a.src_parent, a.src_name) is None,
        a.stays() ==> s.rename(a).0 == s,
        forall|d: u64, n: Seq<char>|
            !(d == a.src_parent && n == a.src_name) && !(d == a.dst_parent && n == a.dst_name)
                ==> #[trigger] s.rename(a).0.entry(d, n) == s.entry(d, n),
{
    if !a.stays() {
        let t = s.rename(a).0;
        lemma_moved(s, a);
        assert(s.has_entry(a.src_parent, a.src_name));
        assert(t.has_entry(a.dst_parent, a.dst_name));
        assert(!t.has_entry(a.src_parent, a.src_name));
        assert forall|d: u64, n: Seq<char>|
            !(d == a.src_parent && n == a.src_name) && !(d == a.dst_parent && n
                == a.dst_name) implies #[trigger] t.entry(d, n) == s.entry(d, n) by {
            assert(t.has_entry(d, n) == s.has_entry(d, n));
        }
    }
}

/// Opening a file keeps the server consistent, as long as numbers are left.
pub proof fn law_open_consistent(s: MetaView, ino: u64, flags: i32)
    requires
        s.consistent(),
        s.next_fh < u64::MAX,
    ensures
        s.open(ino, flags).0.consistent(),
{
    lemma_same_tree(s, s.open(ino, flags).0);
}

/// What changes neither inodes nor directories keeps them consistent.
proof fn lemma_same_tree(s: MetaView, t: MetaView)
    requires
        s.tree_consistent(),
        s.links_counted(),
        t.inodes == s.inodes,
        t.dirs == s.dirs,
        t.next_ino == s.next_ino,
    ensures
        t.tree_consistent(),
        t.links_counted(),
{
    assert forall|d: u64, n: Seq<char>| #[trigger] t.has_entry(d, n) == s.has_entry(d, n) by {}
    assert forall|k: u64| #[trigger] t.kind_of(k) == s.kind_of(k) by {}
    assert forall|k: u64|
        #![trigger t.dirs.contains_key(k)]
        #![trigger t.kind_of(k)]
        t.dirs.contains_key(k) <==> t.kind_of(k) == Some(InodeKind::Dir) by {
        assert(s.dirs.contains_key(k) <==> s.kind_of(k) == Some(InodeKind::Dir));
    }
    assert forall|d: u64| #![trigger t.subdirs(d)] t.dirs.contains_key(d) implies t.subdirs(
        d,
    ).finite() && t.inodes[d].nlink == 2 + t.subdirs(d).len() by {
        lemma_same_subdirs(s, t, d);
    }
}

/// Closing a file keeps the server consistent.
pub proof fn law_close_consistent(s: MetaView, a: CloseArgs, now: Timestamp)
    requires
        s.consistent(),
    ensures
        s.close(a, now).0.consistent(),
{
    if s.open_handles.contains_key(a.fh) {
        let closed = MetaView { open_handles: s.open_handles.remove(a.fh), ..s };
        lemma_same_tree(s, closed);
        assert(closed.handles_consistent()) by {
            assert forall|h: u64|
                #![trigger closed.open_handles.contains_key(h)]
                closed.open_handles.contains_key(h) implies closed.open_handles[h].fh == h && h
                < closed.next_fh by {
                assert(s.open_handles.contains_key(h));
            }
        }
        if s.publishes(a) {
            lemma_inode_replaced(closed, s.close(a, now).0, s.open_handles[a.fh].ino.0);
        }
    }
}

/// Finding places for blocks keeps the server consistent.
pub proof fn law_allocate_consistent(s: MetaView, ino: u64, idxs: Seq<u64>)
    requires
        s.consistent(),
    ensures
        s.allocate_blocks(ino, idxs).0.consistent(),
{
    if s.inodes.contains_key(ino) {
        lemma_inode_replaced(s, s.blocks_placed(ino, idxs), ino);
    }
}

/// Word from storage nodes, and the lack of it, keep the server consistent.
pub proof fn law_nodes_consistent(s: MetaView, n: NodeView, now: u128, dead_after: u128)
    requires
        s.consistent(),
    ensures
        s.heartbeat(n, now).consistent(),
        s.silent_marked(now, dead_after).consistent(),
{
    lemma_same_tree(s, s.heartbeat(n, now));
    lemma_same_tree(s, s.silent_marked(now, dead_after));
}

/// A file is found under the name under which it was made, with the attributes
/// that were told; every other name stands for what it stood for.
pub proof fn law_lookup_after_create(
    s: MetaView,
    a: MakeArgs,
    now: Timestamp,
    d: u64,
    n: Seq<char>,
)
    requires
        s.create(a, now).1 is Ok,
    ensures
        s.create(a, now).0.lookup(a.parent, a.name) == Ok::<_, StatusView>(
            s.create(a, now).1->Ok_0.0,
        ),
        !(d == a.parent && n == a.name) ==> s.create(a, now).0.entry(d, n) == s.entry(d, n),
{
}

/// A directory is found under the name under which it was made, with the
/// attributes that were told; every other name stands for what it stood for.
pub proof fn law_lookup_after_mkdir(
    s: MetaView,
    a: MakeArgs,
    now: Timestamp,
    d: u64,
    n: Seq<char>,
)
    requires
        s.consistent(),
        s.mkdir(a, now).1 is Ok,
    ensures
        s.mkdir(a, now).0.lookup(a.parent, a.name) == Ok::<_, StatusView>(s.mkdir(a, now).1->Ok_0),
        !(d == a.parent && n == a.name) ==> s.mkdir(a, now).0.entry(d, n) == s.entry(d, n),
{
    assert(s.dirs.contains_key(a.parent));
    assert(s.kind_of(a.parent) is Some);
    assert(!s.inodes.contains_key(s.next_ino));
    assert(s.kind_of(s.next_ino) is None);
    assert(!s.dirs.contains_key(s.next_ino));
}

/// A file that was removed is not found; every other name stands for what it
/// stood for.
pub proof fn law_lookup_after_unlink(
    s: MetaView,
    parent: u64,
    name: Seq<char>,
    d: u64,
    n: Seq<char>,
)
    requires
        s.unlink(parent, name).1 is Ok,
    ensures
        s.unlink(parent, name).0.lookup(parent, name) == Err::<Attr, _>(not_found()),
        !(d == parent && n == name) ==> s.unlink(parent, name).0.entry(d, n) == s.entry(d, n),
{
}

/// A directory that was removed is not found; every other name stands for what
/// it stood for.
pub proof fn law_lookup_after_rmdir(
    s: MetaView,
    parent: u64,
    name: Seq<char>,
    d: u64,
    n: Seq<char>,
)
    requires
        s.rmdir(parent, name).1 is Ok,
    ensures
        s.rmdir(parent, name).0.lookup(parent, name) == Err::<Attr, _>(not_found()),
        !(d == parent && n == name) ==> s.rmdir(parent, name).0.entry(d, n) == s.entry(d, n),
{
    let ino = s.dirs[parent][name];
    assert(parent != ino) by {
        assert(s.dirs[parent].contains_key(name));
    }
}

/// A refused request changes nothing, but that a refused close still gives its
/// handle up.
pub proof fn law_refusal_changes_nothing(
    s: MetaView,
    r: SetAttrReq,
    m: MakeArgs,
    a: MoveArgs,
    c: CloseArgs,
    flags: i32,
    idxs: Seq<u64>,
    now: Timestamp,
)
    ensures
        s.set_attr(r, now).1 is Err ==> s.set_attr(r, now).0 == s,
        s.create(m, now).1 is Err ==> s.create(m, now).0 == s,
        s.mkdir(m, now).1 is Err ==> s.mkdir(m, now).0 == s,
        s.unlink(m.parent, m.name).1 is Err ==> s.unlink(m.parent, m.name).0 == s,
        s.rmdir(m.parent, m.name).1 is Err ==> s.rmdir(m.parent, m.name).0 == s,
        s.open(r.ino, flags).1 is Err ==> s.open(r.ino, flags).0 == s,
        s.allocate_blocks(r.ino, idxs).1 is Err ==> s.allocate_blocks(r.ino, idxs).0 == s,
        s.rename(a).1 is Err ==> s.rename(a).0 == s,
        s.close(c, now).1 is Err ==> s.close(c, now).0 == (MetaView {
            open_handles: s.open_handles.remove(c.fh),
            ..s
        }),
{
    if !s.open_handles.contains_key(c.fh) {
        assert(s.open_handles.remove(c.fh) =~= s.open_handles);
    }
}

/// The generation of a file goes up by one with each close that publishes
/// blocks, and with nothing else.
pub proof fn law_generation_counts_publications(
    s: MetaView,
    ino: u64,
    r: SetAttrReq,
    m: MakeArgs,
    a: MoveArgs,
    c: CloseArgs,
    flags: i32,
    idxs: Seq<u64>,
    now: Timestamp,
)
    requires
        s.consistent(),
        s.inodes.contains_key(ino),
        s.inodes[ino].generation < u64::MAX,
    ensures
        s.close(c, now).0.inodes[ino].generation == if s.publishes(c) && s.open_handles[c.fh].ino.0
            == ino {
            s.inodes[ino].generation + 1
        } else {
            s.inodes[ino].generation as int
        },
        s.set_attr(r, now).0.inodes[ino].generation == s.inodes[ino].generation,
        s.create(m, now).0.inodes[ino].generation == s.inodes[ino].generation,
        s.mkdir(m, now).0.inodes[ino].generation == s.inodes[ino].generation,
        s.open(r.ino, flags).0.inodes[ino].generation == s.inodes[ino].generation,
        s.allocate_blocks(r.ino, idxs).0.inodes[ino].generation == s.inodes[ino].generation,
        s.unlink(m.parent, m.name).0.inodes.contains_key(ino) ==> s.unlink(
            m.parent,
            m.name,
        ).0.inodes[ino].generation == s.inodes[ino].generation,
        s.rmdir(m.parent, m.name).0.inodes.contains_key(ino) ==> s.rmdir(
            m.parent,
            m.name,
        ).0.inodes[ino].generation == s.inodes[ino].generation,
        s.rename(a).0.inodes.contains_key(ino) ==> s.rename(a).0.inodes[ino].generation
            == s.inodes[ino].generation,
{
    assert(ino != s.next_ino);
}

/// A second writer that opened a file before it was published anew is refused:
/// of two closes that expect the same generation, only one publishes.
pub proof fn law_stale_close_refused(
    s: MetaView,
    first: CloseArgs,
    second: CloseArgs,
    now: Timestamp,
    later: Timestamp,
)
    requires
        s.publishes(first),
        first.expected_generation < u64::MAX,
        first.fh != second.fh,
        second.written.len() > 0,
        s.open_handles.contains_key(second.fh),
        s.open_handles[second.fh].ino == s.open_handles[first.fh].ino,
        second.expected_generation == first.expected_generation,
    ensures
        s.close(first, now).0.close(second, later).1 == Err::<Attr, _>(
            StatusView { code: Code::FailedPrecondition, message: "generation mismatch"@ },
        ),
        s.close(first, now).0.close(second, later).0.inodes == s.close(first, now).0.inodes,
{
}

/// A block that has a place keeps it, whatever else is placed and whatever
/// nodes come and go; asking again tells the same places and changes nothing.
pub proof fn law_placement_is_stable(
    s: MetaView,
    ino: u64,
    idxs: Seq<u64>,
    again: Seq<u64>,
    nodes: Seq<NodeView>,
    i: int,
)
    requires
        s.inodes.contains_key(ino),
        0 <= i < idxs.len(),
        again == seq![idxs[i]],
    ensures
        ({
            let t = MetaView { nodes, ..s.allocate_blocks(ino, idxs).0 };
            &&& t.allocate_blocks(ino, again).1 == Ok::<_, StatusView>(
                seq![s.allocate_blocks(ino, idxs).1->Ok_0[i]],
            )
            &&& t.allocate_blocks(ino, again).0 == t
            &&& forall|k: u64|
                s.inodes[ino].blocks.contains_key(k) ==> t.inodes[ino].blocks.contains_key(k)
                    && #[trigger] t.inodes[ino].blocks[k] == s.inodes[ino].blocks[k]
        }),
{
    let t = MetaView { nodes, ..s.allocate_blocks(ino, idxs).0 };
    let u = t.allocate_blocks(ino, again).0;
    assert(idxs.contains(idxs[i]));
    assert(t.inodes[ino].blocks.contains_key(idxs[i]));
    assert forall|k: u64| again.contains(k) implies k == idxs[i] by {}
    assert(u.inodes[ino].blocks =~= t.inodes[ino].blocks);
    assert(u.inodes =~= t.inodes);
    assert(u =~= t);
    assert(t.allocate_blocks(ino, again).1->Ok_0 =~= seq![
        s.allocate_blocks(ino, idxs).1->Ok_0[i],
    ]);
}

/// What is made is marked as what it is: the type in the mode is that of a
/// file or of a directory, and the permissions are those that were asked for.
pub proof fn law_mode_tells_kind(ino: u64, mode: u32, uid: u32, gid: u32, now: Timestamp)
    ensures
        new_file(ino, mode, uid, gid, now).mode & 0o170000 == 0o100000,
        new_file(ino, mode, uid, gid, now).mode & 0o7777 == mode & 0o7777,
        new_dir(ino, mode, uid, gid, now).mode & 0o170000 == 0o040000,
        new_dir(ino, mode, uid, gid, now).mode & 0o7777 == mode & 0o7777,
{
    assert((0o100000 | (mode & 0o7777)) & 0o170000 == 0o100000u32) by (bit_vector);
    assert((0o100000 | (mode & 0o7777)) & 0o7777 == mode & 0o7777u32) by (bit_vector);
    assert((0o040000 | (mode & 0o7777)) & 0o170000 == 0o040000u32) by (bit_vector);
    assert((0o040000 | (mode & 0o7777)) & 0o7777 == mode & 0o7777u32) by (bit_vector);
}

/// What `pages` pages of a listing hold, one after the other: the first starts
/// where `cookie` says, each other one where the page before it says, and none
/// follows the last.
pub open spec fn read_pages(
    s: MetaView,
    all: Listing,
    cookie: Seq<u8>,
    max: nat,
    pages: nat,
) -> Seq<DirEntryView>
    decreases pages,
{
    if pages == 0 {
        Seq::empty()
    } else {
        let page = s.page(all, cookie_name(cookie), max);
        if page.eof {
            page.entries
        } else {
            page.entries + read_pages(
                s,
                all,
                next_cookie(page.entries),
                max,
                (pages - 1) as nat,
            )
        }
    }
}

/// How many requests the reading of a listing takes, up to `limit`: the first
/// starts where `cookie` says, and the last one is told that it is.
pub open spec fn requests_made(
    s: MetaView,
    all: Listing,
    cookie: Seq<u8>,
    max: nat,
    limit: nat,
) -> nat
    decreases limit,
{
    if limit == 0 {
        0
    } else {
        let page = s.page(all, cookie_name(cookie), max);
        if page.eof {
            1
        } else {
            1 + requests_made(s, all, next_cookie(page.entries), max, (limit - 1) as nat)
        }
    }
}

/// How many entries stand before the page that a cookie asks for.
pub open spec fn page_start(all: Listing, cookie: Seq<u8>) -> int {
    match cookie_name(cookie) {
        Some(n) => names_up_to(all, n),
        None => 0,
    }
}

proof fn lemma_names_up_to_listed(all: Listing, i: int)
    requires
        is_sorted(all),
        0 <= i < all.len(),
    ensures
        names_up_to(all, all[i].0) == i + 1,
{
    let n = all[i].0;
    assert forall|j: int| 0 <= j < all.len() implies (j < i + 1 <==> !name_before(
        n,
        (#[trigger] all[j]).0,
    )) by {
        law_name_order_total(n, all[j].0);
        law_name_order_total(n, n);
    }
    lemma_names_up_to(all, n, i + 1);
}

proof fn lemma_names_up_to_range(all: Listing, n: Seq<char>)
    ensures
        0 <= names_up_to(all, n) <= all.len(),
    decreases all.len(),
{
    if all.len() > 0 {
        lemma_names_up_to_range(all.drop_last(), n);
    }
}

/// The cookie behind an entry other than one with an empty name asks for what
/// follows that entry.
proof fn lemma_cookie_round_trip(all: Listing, i: int)
    requires
        is_sorted(all),
        0 <= i < all.len(),
        i > 0 || all[i].0.len() > 0,
    ensures
        page_start(all, encode_utf8(all[i].0)) == i + 1,
{
    let n = all[i].0;
    let none = Seq::<char>::empty();
    if n.len() == 0 {
        assert(n =~= none);
        assert(name_before(all[0].0, n));
    }
    encode_utf8_valid_utf8(n);
    encode_utf8_decode_utf8(n);
    if encode_utf8(n).len() == 0 {
        assert(encode_utf8(n) =~= encode_utf8(none));
        lemma_encoding_injective(n, none);
    }
    lemma_names_up_to_listed(all, i);
}

/// Reading a directory page by page tells every entry from the start on, each
/// once and in the order of the names. With `max` entries to a page it takes
/// one request for every full page, and one more. A page holds at least two
/// entries, or no entry has an empty name.
pub proof fn law_pages_cover_directory(
    s: MetaView,
    all: Listing,
    cookie: Seq<u8>,
    max: nat,
    pages: nat,
)
    requires
        is_sorted(all),
        max >= 1,
        max >= 2 || forall|i: int| 0 <= i < all.len() ==> (#[trigger] all[i]).0.len() > 0,
        pages > (all.len() - page_start(all, cookie)) / (max as int),
    ensures
        requests_made(s, all, cookie, max, pages) == (all.len() - page_start(all, cookie)) / (
        max as int) + 1,
        read_pages(s, all, cookie, max, pages) == Seq::new(
            (all.len() - page_start(all, cookie)) as nat,
            |i: int| s.told_entry(all[page_start(all, cookie) + i]),
        ),
    decreases pages,
{
    let from = page_start(all, cookie);
    match cookie_name(cookie) {
        Some(n) => lemma_names_up_to_range(all, n),
        None => {},
    }
    let page = s.page(all, cookie_name(cookie), max);
    let want = Seq::new((all.len() - from) as nat, |i: int| s.told_entry(all[from + i]));
    if page.eof {
        assert(page.entries =~= want);
        vstd::arithmetic::div_mod::lemma_basic_div(all.len() - from, max as int);
    } else {
        vstd::arithmetic::div_mod::lemma_div_minus_one(all.len() - from, max as int);
        vstd::arithmetic::div_mod::lemma_div_pos_is_pos(all.len() - from - max, max as int);
        let last = from + max - 1;
        assert(page.entries.last() == s.told_entry(all[last]));
        assert(page.entries.last().name == all[last].0);
        lemma_cookie_round_trip(all, last);
        let rest = next_cookie(page.entries);
        law_pages_cover_directory(s, all, rest, max, (pages - 1) as nat);
        assert(page.entries + read_pages(s, all, rest, max, (pages - 1) as nat) =~= want);
    }
}

/// A name is in service where some node of that name is.
proof fn lemma_live_contains(nodes: Seq<NodeView>, i: int)
    requires
        0 <= i < nodes.len(),
        nodes[i].status == NodeStatus::Up,
    ensures
        live(nodes).contains(nodes[i].node_id),
{
    let is_up = |n: NodeView| n.status == NodeStatus::Up;
    assert(is_up(nodes[i]));
    nodes.lemma_filter_contains(is_up, i);
    let j = choose|j: int| 0 <= j < up_nodes(nodes).len() && up_nodes(nodes)[j] == nodes[i];
    assert(live(nodes)[j] == nodes[i].node_id);
}

/// A name in service is that of some node in service.
proof fn lemma_live_is_up(nodes: Seq<NodeView>, id: Seq<char>)
    requires
        live(nodes).contains(id),
    ensures
        exists|i: int|
            0 <= i < nodes.len() && (#[trigger] nodes[i]).node_id == id && nodes[i].status
                == NodeStatus::Up,
{
    let is_up = |n: NodeView| n.status == NodeStatus::Up;
    let j = choose|j: int| 0 <= j < live(nodes).len() && live(nodes)[j] == id;
    let n = up_nodes(nodes)[j];
    nodes.lemma_filter_pred(is_up, j);
    assert(is_up(n));
    assert(up_nodes(nodes).contains(n));
    nodes.lemma_filter_contains_rev(is_up, n);
    let i = choose|i: int| 0 <= i < nodes.len() && nodes[i] == n;
    assert(nodes[i].node_id == id);
}

/// A node that sends word is in service.
pub proof fn law_heartbeat_brings_into_service(s: MetaView, n: NodeView, at: u128)
    requires
        n.status == NodeStatus::Up,
    ensures
        live(s.heartbeat(n, at).nodes).contains(n.node_id),
{
    lemma_node_index(s.nodes, n.node_id);
    let nodes = s.heartbeat(n, at).nodes;
    match node_index(s.nodes, n.node_id) {
        Some(i) => {
            assert(nodes[i] == n);
            lemma_live_contains(nodes, i);
        },
        None => {
            assert(nodes[s.nodes.len() as int] == n);
            lemma_live_contains(nodes, s.nodes.len() as int);
        },
    }
}

/// A node that fell silent is not in service, and every other node is what it
/// was.
pub proof fn law_silence_takes_out_of_service(
    s: MetaView,
    id: Seq<char>,
    now: u128,
    dead_after: u128,
)
    ensures
        live(s.silent_marked(now, dead_after).nodes).contains(id) <==> live(s.nodes).contains(id)
            && !s.silent(id, now, dead_after),
{
    let marked = s.silent_marked(now, dead_after).nodes;
    if live(marked).contains(id) {
        lemma_live_is_up(marked, id);
        let i = choose|i: int|
            0 <= i < marked.len() && (#[trigger] marked[i]).node_id == id && marked[i].status
                == NodeStatus::Up;
        assert(marked[i] == s.nodes[i]);
        lemma_live_contains(s.nodes, i);
    }
    if live(s.nodes).contains(id) && !s.silent(id, now, dead_after) {
        lemma_live_is_up(s.nodes, id);
        let i = choose|i: int|
            0 <= i < s.nodes.len() && (#[trigger] s.nodes[i]).node_id == id && s.nodes[i].status
                == NodeStatus::Up;
        assert(marked[i] == s.nodes[i]);
        lemma_live_contains(marked, i);
    }
}

/// New blocks go to nodes in service: to as many as the replication factor
/// asks for, or to all where there are fewer.
pub proof fn law_new_blocks_go_to_live_nodes(
    nodes: Seq<NodeView>,
    r: nat,
    ino: u64,
    idx: u64,
    i: int,
)
    requires
        r >= 1,
        live(nodes).len() >= 1,
        0 <= i < holders(new_placement(nodes, r, ino, idx)).len(),
    ensures
        holders(new_placement(nodes, r, ino, idx)).len() == if r < live(nodes).len() {
            r
        } else {
            live(nodes).len()
        },
        live(nodes).contains(holders(new_placement(nodes, r, ino, idx))[i]),
{
    broadcast use vstd::seq_lib::group_to_multiset_ensures;

    let key = BlockKey {
        ino: InodeId(ino),
        block_idx: BlockIdx(idx),
        generation: Generation(0),
    };
    let all = bids(key, live(nodes));
    law_ranking_is_permutation(all);
    let ranked = ranking(all);
    assert(ranked.len() == all.len()) by {
        assert(ranked.to_multiset().len() == all.to_multiset().len());
    }
    let chosen = picked(key, live(nodes), r);
    assert(holders(new_placement(nodes, r, ino, idx)) =~= chosen);
    assert(chosen[i] == ranked[i].1);
    assert(ranked.to_multiset().count(ranked[i]) > 0) by {
        assert(ranked.contains(ranked[i]));
    }
    assert(all.contains(ranked[i]));
    let j = choose|j: int| 0 <= j < all.len() && all[j] == ranked[i];
    assert(live(nodes)[j] == chosen[i]);
}

/// A file that is cut to `size` bytes keeps exactly the blocks in which those
/// bytes lie. One that is cut to nothing keeps its first block.
pub proof fn law_truncation_keeps_what_is_needed(i: InodeView, r: SetAttrReq, now: Timestamp, k: u64)
    requires
        shrinks(i, r),
        i.blocks.contains_key(k),
    ensures
        ({
            let kept = changed_inode(i, r, now).blocks;
            let size = r.size->0;
            &&& kept.contains_key(k) <==> k * 0x10_0000 < size || (size == 0 && k == 0)
            &&& kept.contains_key(k) ==> kept[k] == i.blocks[k]
        }),
{
}

proof fn lemma_node_deletes(
    nodes: Seq<NodeView>,
    ino: u64,
    idx: u64,
    at: Seq<Seq<char>>,
    h: int,
)
    requires
        0 <= h < at.len(),
        node_index(nodes, at[h]) is Some,
    ensures
        node_deletes(nodes, ino, idx, at).contains(
            (
                "http://"@ + nodes[node_index(nodes, at[h])->0].addr,
                BlockKey {
                    ino: InodeId(ino),
                    block_idx: BlockIdx(idx),
                    generation: Generation(0),
                },
            ),
        ),
    decreases at.len(),
{
    let want = (
        "http://"@ + nodes[node_index(nodes, at[h])->0].addr,
        BlockKey { ino: InodeId(ino), block_idx: BlockIdx(idx), generation: Generation(0) },
    );
    let all = node_deletes(nodes, ino, idx, at);
    let rest = node_deletes(nodes, ino, idx, at.drop_last());
    if h == at.len() - 1 {
        assert(all[rest.len() as int] == want);
    } else {
        assert(at.drop_last()[h] == at[h]);
        lemma_node_deletes(nodes, ino, idx, at.drop_last(), h);
        let j = choose|j: int| 0 <= j < rest.len() && rest[j] == want;
        assert(all[j] == want);
    }
}

/// Every node that holds a dropped block, and whose address is known, is told
/// to delete it.
pub proof fn law_every_holder_is_told(
    nodes: Seq<NodeView>,
    ino: u64,
    blocks: Seq<(u64, PlacementView)>,
    i: int,
    h: int,
)
    requires
        0 <= i < blocks.len(),
        0 <= h < holders(blocks[i].1).len(),
        node_index(nodes, holders(blocks[i].1)[h]) is Some,
    ensures
        block_deletes(nodes, ino, blocks).contains(
            (
                "http://"@ + nodes[node_index(nodes, holders(blocks[i].1)[h])->0].addr,
                BlockKey {
                    ino: InodeId(ino),
                    block_idx: BlockIdx(blocks[i].0),
                    generation: Generation(0),
                },
            ),
        ),
    decreases blocks.len(),
{
    let at = holders(blocks[i].1);
    let want = (
        "http://"@ + nodes[node_index(nodes, at[h])->0].addr,
        BlockKey {
            ino: InodeId(ino),
            block_idx: BlockIdx(blocks[i].0),
            generation: Generation(0),
        },
    );
    let all = block_deletes(nodes, ino, blocks);
    let rest = block_deletes(nodes, ino, blocks.drop_last());
    if i == blocks.len() - 1 {
        lemma_node_deletes(nodes, ino, blocks[i].0, at, h);
        let last = node_deletes(nodes, ino, blocks[i].0, at);
        let j = choose|j: int| 0 <= j < last.len() && last[j] == want;
        assert(all[rest.len() + j] == want);
    } else {
        assert(blocks.drop_last()[i] == blocks[i]);
        law_every_holder_is_told(nodes, ino, blocks.drop_last(), i, h);
        let j = choose|j: int| 0 <= j < rest.len() && rest[j] == want;
        assert(all[j] == want);
    }
}

} // verus!
