//! An in-memory filesystem model.
//!
//! The protocol's observable world is a finite map from component paths
//! to nodes (text files or directories).  `MemFs` realises that map as
//! a vector of entries whose view is the map itself; later entries for
//! the same path shadow earlier ones, so insertion is a plain push.
//!
//! Two fault switches simulate the install-phase failures the protocol
//! must tolerate: a failing removal of the stale installation and a
//! failing final rename.  A counter makes scratch-directory names
//! unique across invocations on the same filesystem value.

use vstd::prelude::*;
use crate::paths::{
    starts_with,
    lemma_path_index,
    lemma_path_len,
    path_eq,
    path_starts_with,
    path_clone,
    path_push,
    path_replace_prefix,
};
use crate::digits::dec_chars;
use crate::digits::encode_dec;

verus! {

/// A filesystem node: a text file with its contents, or a directory.
pub enum Node {
    File(String),
    Dir,
}

/// The mathematical value of a node.
pub enum NodeV {
    File(Seq<char>),
    Dir,
}

impl View for Node {
    type V = NodeV;

    open spec fn view(&self) -> NodeV {
        match self {
            Node::File(s) => NodeV::File(s@),
            Node::Dir => NodeV::Dir,
        }
    }
}

/// One path-to-node binding.
struct Entry {
    path: Vec<String>,
    node: Node,
}

/// The mathematical value of a filesystem: its path-to-node map, the
/// scratch-name counter, and the two injected fault switches.
pub struct FsV {
    pub map: Map<Seq<Seq<char>>, NodeV>,
    pub counter: u64,
    pub fail_remove: bool,
    pub fail_rename: bool,
}

/// Fold the entries into a map; a later entry for a path shadows an
/// earlier one.
spec fn entries_map(s: Seq<Entry>) -> Map<Seq<Seq<char>>, NodeV>
    decreases s.len(),
{
    if s.len() == 0 {
        Map::empty()
    } else {
        entries_map(s.drop_last()).insert(s.last().path.deep_view(), s.last().node@)
    }
}

/// The in-memory filesystem.
pub struct MemFs {
    entries: Vec<Entry>,
    tmp_counter: u64,
    fail_remove: bool,
    fail_rename: bool,
}

impl View for MemFs {
    type V = FsV;

    closed spec fn view(&self) -> FsV {
        FsV {
            map: entries_map(self.entries@),
            counter: self.tmp_counter,
            fail_remove: self.fail_remove,
            fail_rename: self.fail_rename,
        }
    }
}

/// Everything but the path-to-node map is unchanged.
pub open spec fn same_admin(a: FsV, b: FsV) -> bool {
    a.counter == b.counter && a.fail_remove == b.fail_remove && a.fail_rename == b.fail_rename
}

/// Nothing in the map lies at or below `p` (its ancestors may exist:
/// a fresh directory is created inside existing ones).
pub open spec fn nothing_under(m: Map<Seq<Seq<char>>, NodeV>, p: Seq<Seq<char>>) -> bool {
    forall|k: Seq<Seq<char>>| m.dom().contains(k) ==> !starts_with(k, p)
}

/// `m` with every binding at or below `base` removed.
pub open spec fn remove_prefixed(m: Map<Seq<Seq<char>>, NodeV>, base: Seq<Seq<char>>) -> Map<
    Seq<Seq<char>>,
    NodeV,
> {
    Map::new(|k: Seq<Seq<char>>| m.dom().contains(k) && !starts_with(k, base), |k: Seq<Seq<char>>| m[k])
}

/// `m` with the subtree below `from` moved below `to`, replacing
/// whatever was below `to`.
pub open spec fn rename_map(
    m: Map<Seq<Seq<char>>, NodeV>,
    from: Seq<Seq<char>>,
    to: Seq<Seq<char>>,
) -> Map<Seq<Seq<char>>, NodeV> {
    Map::new(
        |k: Seq<Seq<char>>|
            (m.dom().contains(k) && !starts_with(k, from) && !starts_with(k, to)) || (starts_with(
                k,
                to,
            ) && m.dom().contains(from + k.skip(to.len() as int))),
        |k: Seq<Seq<char>>|
            if starts_with(k, to) {
                m[from + k.skip(to.len() as int)]
            } else {
                m[k]
            },
    )
}

/// Every entry's path is in the map.
proof fn lemma_entry_key_in_map(s: Seq<Entry>, i: int)
    requires
        0 <= i < s.len(),
    ensures
        entries_map(s).dom().contains(s[i].path.deep_view()),
    decreases s.len(),
{
    if i == s.len() - 1 {
    } else {
        lemma_entry_key_in_map(s.drop_last(), i);
    }
}

/// Every path in the map has an entry.
proof fn lemma_map_key_has_entry(s: Seq<Entry>, k: Seq<Seq<char>>)
    requires
        entries_map(s).dom().contains(k),
    ensures
        exists|i: int| 0 <= i < s.len() && s[i].path.deep_view() == k,
    decreases s.len(),
{
    if s.len() > 0 {
        if s.last().path.deep_view() == k {
            assert(s[s.len() - 1].path.deep_view() == k);
        } else {
            lemma_map_key_has_entry(s.drop_last(), k);
            let i = choose|i: int|
                0 <= i < s.drop_last().len() && s.drop_last()[i].path.deep_view() == k;
            assert(s[i].path.deep_view() == k);
        }
    }
}

/// If no entry from `i` on binds `k`, the map agrees at `k` with the
/// map of the first `i` entries.
proof fn lemma_map_suffix_miss(s: Seq<Entry>, k: Seq<Seq<char>>, i: int)
    requires
        0 <= i <= s.len(),
        forall|j: int| i <= j < s.len() ==> s[j].path.deep_view() != k,
    ensures
        entries_map(s).dom().contains(k) == entries_map(s.subrange(0, i)).dom().contains(k),
        entries_map(s).dom().contains(k) ==> entries_map(s)[k] == entries_map(s.subrange(0, i))[k],
    decreases s.len() - i,
{
    if i == s.len() {
        assert(s.subrange(0, i) =~= s);
    } else {
        assert(s.drop_last() =~= s.subrange(0, s.len() - 1));
        lemma_map_suffix_miss(s.subrange(0, s.len() - 1), k, i);
        assert(s.subrange(0, s.len() - 1).subrange(0, i) =~= s.subrange(0, i));
        assert(s[s.len() - 1].path.deep_view() != k);
    }
}

impl MemFs {
    /// An empty filesystem with no injected faults.
    pub fn new() -> (r: MemFs)
        ensures
            r@.map == Map::<Seq<Seq<char>>, NodeV>::empty(),
            r@.counter == 0,
            !r@.fail_remove,
            !r@.fail_rename,
    {
        MemFs { entries: Vec::new(), tmp_counter: 0, fail_remove: false, fail_rename: false }
    }

    /// Arm or disarm the simulated failure of removing a stale installation.
    pub fn set_fail_remove(&mut self, b: bool)
        ensures
            final(self)@.map == old(self)@.map,
            final(self)@.counter == old(self)@.counter,
            final(self)@.fail_rename == old(self)@.fail_rename,
            final(self)@.fail_remove == b,
    {
        self.fail_remove = b;
    }

    /// Arm or disarm the simulated failure of the final install rename.
    pub fn set_fail_rename(&mut self, b: bool)
        ensures
            final(self)@.map == old(self)@.map,
            final(self)@.counter == old(self)@.counter,
            final(self)@.fail_remove == old(self)@.fail_remove,
            final(self)@.fail_rename == b,
    {
        self.fail_rename = b;
    }

    /// Look the node at `p` up.
    pub fn node_at(&self, p: &Vec<String>) -> (r: Option<&Node>)
        ensures
            match r {
                Some(n) => self@.map.dom().contains(p.deep_view()) && n@ == self@.map[p.deep_view()],
                None => !self@.map.dom().contains(p.deep_view()),
            },
    {
        let n = self.entries.len();
        let mut i: usize = n;
        while i > 0
            invariant
                0 <= i <= n,
                n == self.entries.len(),
                forall|j: int|
                    i <= j < n ==> self.entries@[j].path.deep_view() != p.deep_view(),
            decreases i,
        {
            i = i - 1;
            let e = &self.entries[i];
            if path_eq(&e.path, p) {
                proof {
                    let s = self.entries@;
                    let k = p.deep_view();
                    lemma_map_suffix_miss(s, k, i + 1);
                    let t = s.subrange(0, i + 1);
                    assert(t.drop_last() =~= s.subrange(0, i as int));
                    assert(t.last() == s[i as int]);
                }
                return Some(&e.node);
            }
        }
        proof {
            lemma_map_suffix_miss(self.entries@, p.deep_view(), 0);
            assert(self.entries@.subrange(0, 0) =~= Seq::<Entry>::empty());
        }
        None
    }

    /// Is any node recorded at `p`?
    pub fn contains_path(&self, p: &Vec<String>) -> (r: bool)
        ensures
            r == self@.map.dom().contains(p.deep_view()),
    {
        match self.node_at(p) {
            Some(_) => true,
            None => false,
        }
    }

    /// The contents of the file at `p`, if a file is there.
    pub fn read_file(&self, p: &Vec<String>) -> (r: Option<String>)
        ensures
            match r {
                Some(c) => self@.map.dom().contains(p.deep_view()) && self@.map[p.deep_view()]
                    == NodeV::File(c@),
                None => !self@.map.dom().contains(p.deep_view()) || self@.map[p.deep_view()]
                    == NodeV::Dir,
            },
    {
        match self.node_at(p) {
            Some(Node::File(s)) => Some(s.clone()),
            Some(Node::Dir) => None,
            None => None,
        }
    }

    /// Write the file at `p`, creating or replacing it.
    pub fn set_file(&mut self, p: &Vec<String>, content: String)
        ensures
            final(self)@.map == old(self)@.map.insert(p.deep_view(), NodeV::File(content@)),
            same_admin(final(self)@, old(self)@),
    {
        let path = path_clone(p);
        let ghost s0 = self.entries@;
        self.entries.push(Entry { path, node: Node::File(content) });
        proof {
            assert(self.entries@.drop_last() =~= s0);
        }
    }

    /// Record a directory at `p`, replacing whatever was there.
    pub fn mkdir(&mut self, p: &Vec<String>)
        ensures
            final(self)@.map == old(self)@.map.insert(p.deep_view(), NodeV::Dir),
            same_admin(final(self)@, old(self)@),
    {
        let path = path_clone(p);
        let ghost s0 = self.entries@;
        self.entries.push(Entry { path, node: Node::Dir });
        proof {
            assert(self.entries@.drop_last() =~= s0);
        }
    }
}


/// The successor of the scratch counter; it sticks at the top instead
/// of wrapping, and freshness is always checked separately.
pub open spec fn next_counter(c: u64) -> u64 {
    if c < u64::MAX {
        (c + 1) as u64
    } else {
        c
    }
}

/// The name of the scratch directory created for counter value `c`.
pub open spec fn temp_name(stem: Seq<char>, c: u64) -> Seq<char> {
    stem + "-"@ + dec_chars(c)
}

/// Removing a subtree commutes with inserting a binding outside it.
pub proof fn lemma_remove_prefixed_insert_out(
    m: Map<Seq<Seq<char>>, NodeV>,
    base: Seq<Seq<char>>,
    k: Seq<Seq<char>>,
    v: NodeV,
)
    requires
        !starts_with(k, base),
    ensures
        remove_prefixed(m.insert(k, v), base) == remove_prefixed(m, base).insert(k, v),
{
    assert(remove_prefixed(m.insert(k, v), base) =~= remove_prefixed(m, base).insert(k, v));
}

/// Inserting a binding inside a subtree is undone by removing the subtree.
pub proof fn lemma_remove_prefixed_insert_in(
    m: Map<Seq<Seq<char>>, NodeV>,
    base: Seq<Seq<char>>,
    k: Seq<Seq<char>>,
    v: NodeV,
)
    requires
        starts_with(k, base),
    ensures
        remove_prefixed(m.insert(k, v), base) == remove_prefixed(m, base),
{
    assert(remove_prefixed(m.insert(k, v), base) =~= remove_prefixed(m, base));
}

/// A path below `base` put back together from `base` and its tail.
pub proof fn lemma_prefix_recompose(k: Seq<Seq<char>>, base: Seq<Seq<char>>)
    requires
        starts_with(k, base),
    ensures
        base + k.skip(base.len() as int) == k,
{
    assert(base + k.skip(base.len() as int) =~= k);
}

/// Any extension of `base` lies below `base`.
pub proof fn lemma_concat_starts_with(base: Seq<Seq<char>>, t: Seq<Seq<char>>)
    ensures
        starts_with(base + t, base),
{
    assert((base + t).subrange(0, base.len() as int) =~= base);
}

/// Two prefixes of one path are ordered by the prefix relation.
pub proof fn lemma_prefix_comparable(k: Seq<Seq<char>>, a: Seq<Seq<char>>, b: Seq<Seq<char>>)
    requires
        starts_with(k, a),
        starts_with(k, b),
        a.len() <= b.len(),
    ensures
        starts_with(b, a),
{
    assert forall|i: int| 0 <= i < a.len() implies b.subrange(0, a.len() as int)[i] == a[i] by {
        assert(k.subrange(0, a.len() as int)[i] == k[i]);
        assert(k.subrange(0, b.len() as int)[i] == k[i]);
    }
    assert(b.subrange(0, a.len() as int) =~= a);
}


/// Renaming commutes with inserting a binding below `from`: the binding
/// reappears below `to`.
proof fn lemma_rename_insert_from(
    m: Map<Seq<Seq<char>>, NodeV>,
    from: Seq<Seq<char>>,
    to: Seq<Seq<char>>,
    k: Seq<Seq<char>>,
    v: NodeV,
)
    requires
        starts_with(k, from),
        !starts_with(from, to),
        !starts_with(to, from),
    ensures
        rename_map(m.insert(k, v), from, to) == rename_map(m, from, to).insert(
            to + k.skip(from.len() as int),
            v,
        ),
{
    let kp = to + k.skip(from.len() as int);
    lemma_concat_starts_with(to, k.skip(from.len() as int));
    lemma_prefix_recompose(k, from);
    assert(kp.skip(to.len() as int) =~= k.skip(from.len() as int));
    assert(from + kp.skip(to.len() as int) == k);
    assert(!starts_with(k, to)) by {
        if starts_with(k, to) {
            if from.len() <= to.len() {
                lemma_prefix_comparable(k, from, to);
            } else {
                lemma_prefix_comparable(k, to, from);
            }
        }
    }
    assert forall|j: Seq<Seq<char>>|
        starts_with(j, to) && from + j.skip(to.len() as int) == k implies j == kp by {
        lemma_prefix_recompose(j, to);
        assert(j.skip(to.len() as int) =~= (from + j.skip(to.len() as int)).skip(
            from.len() as int,
        ));
    }
    assert(rename_map(m.insert(k, v), from, to) =~= rename_map(m, from, to).insert(kp, v));
}

/// Renaming erases a binding that sat below the destination.
proof fn lemma_rename_insert_to(
    m: Map<Seq<Seq<char>>, NodeV>,
    from: Seq<Seq<char>>,
    to: Seq<Seq<char>>,
    k: Seq<Seq<char>>,
    v: NodeV,
)
    requires
        starts_with(k, to),
        !starts_with(k, from),
    ensures
        rename_map(m.insert(k, v), from, to) == rename_map(m, from, to),
{
    assert forall|j: Seq<Seq<char>>| starts_with(j, to) implies starts_with(
        from + j.skip(to.len() as int),
        from,
    ) by {
        lemma_concat_starts_with(from, j.skip(to.len() as int));
    }
    assert(rename_map(m.insert(k, v), from, to) =~= rename_map(m, from, to));
}

/// Renaming commutes with inserting a binding away from both subtrees.
proof fn lemma_rename_insert_other(
    m: Map<Seq<Seq<char>>, NodeV>,
    from: Seq<Seq<char>>,
    to: Seq<Seq<char>>,
    k: Seq<Seq<char>>,
    v: NodeV,
)
    requires
        !starts_with(k, from),
        !starts_with(k, to),
    ensures
        rename_map(m.insert(k, v), from, to) == rename_map(m, from, to).insert(k, v),
{
    assert forall|j: Seq<Seq<char>>|
        starts_with(j, to) && from + j.skip(to.len() as int) == k implies false by {
        lemma_concat_starts_with(from, j.skip(to.len() as int));
    }
    assert(rename_map(m.insert(k, v), from, to) =~= rename_map(m, from, to).insert(k, v));
}

/// Copy a node.
fn clone_node(n: &Node) -> (r: Node)
    ensures
        r@ == n@,
{
    match n {
        Node::File(s) => Node::File(s.clone()),
        Node::Dir => Node::Dir,
    }
}

impl MemFs {
    /// Drop every entry at or below `base` from the entry vector.
    fn retain_unprefixed(&mut self, base: &Vec<String>)
        ensures
            final(self)@.map == remove_prefixed(old(self)@.map, base.deep_view()),
            same_admin(final(self)@, old(self)@),
    {
        let mut kept: Vec<Entry> = Vec::new();
        let n = self.entries.len();
        let mut i: usize = 0;
        while i < n
            invariant
                0 <= i <= n,
                n == self.entries.len(),
                entries_map(kept@) == remove_prefixed(
                    entries_map(self.entries@.subrange(0, i as int)),
                    base.deep_view(),
                ),
            decreases n - i,
        {
            let ghost s = self.entries@;
            let ghost mpre = entries_map(s.subrange(0, i as int));
            proof {
                let t = s.subrange(0, i + 1);
                assert(t.drop_last() =~= s.subrange(0, i as int));
                assert(t.last() == s[i as int]);
            }
            let e = &self.entries[i];
            if path_starts_with(&e.path, base) {
                proof {
                    lemma_remove_prefixed_insert_in(
                        mpre,
                        base.deep_view(),
                        s[i as int].path.deep_view(),
                        s[i as int].node@,
                    );
                }
            } else {
                let ghost kept0 = kept@;
                let path = path_clone(&e.path);
                let node = clone_node(&e.node);
                kept.push(Entry { path, node });
                proof {
                    assert(kept@.drop_last() =~= kept0);
                    lemma_remove_prefixed_insert_out(
                        mpre,
                        base.deep_view(),
                        s[i as int].path.deep_view(),
                        s[i as int].node@,
                    );
                }
            }
            i = i + 1;
        }
        proof {
            assert(self.entries@.subrange(0, n as int) =~= self.entries@);
        }
        self.entries = kept;
    }

    /// Remove the subtree at `base`; fails (changing nothing) when the
    /// removal fault is armed.
    pub fn remove_subtree_checked(&mut self, base: &Vec<String>) -> (r: Result<(), ()>)
        ensures
            match r {
                Ok(_) => !old(self)@.fail_remove && final(self)@.map == remove_prefixed(
                    old(self)@.map,
                    base.deep_view(),
                ) && same_admin(final(self)@, old(self)@),
                Err(_) => old(self)@.fail_remove && final(self)@ == old(self)@,
            },
    {
        if self.fail_remove {
            return Err(());
        }
        self.retain_unprefixed(base);
        Ok(())
    }

    /// Remove the subtree at `base` unconditionally (best-effort cleanup
    /// of scratch space never fails in the model).
    pub fn drop_subtree(&mut self, base: &Vec<String>)
        ensures
            final(self)@.map == remove_prefixed(old(self)@.map, base.deep_view()),
            same_admin(final(self)@, old(self)@),
    {
        self.retain_unprefixed(base);
    }

    /// Move the subtree at `from` to `to`, replacing whatever was at or
    /// below `to`; fails (changing nothing) when the rename fault is armed.
    pub fn rename_subtree(&mut self, from: &Vec<String>, to: &Vec<String>) -> (r: Result<(), ()>)
        requires
            !starts_with(from.deep_view(), to.deep_view()),
            !starts_with(to.deep_view(), from.deep_view()),
        ensures
            match r {
                Ok(_) => !old(self)@.fail_rename && final(self)@.map == rename_map(
                    old(self)@.map,
                    from.deep_view(),
                    to.deep_view(),
                ) && same_admin(final(self)@, old(self)@),
                Err(_) => old(self)@.fail_rename && final(self)@ == old(self)@,
            },
    {
        if self.fail_rename {
            return Err(());
        }
        let mut kept: Vec<Entry> = Vec::new();
        let n = self.entries.len();
        let mut i: usize = 0;
        while i < n
            invariant
                0 <= i <= n,
                n == self.entries.len(),
                !starts_with(from.deep_view(), to.deep_view()),
                !starts_with(to.deep_view(), from.deep_view()),
                entries_map(kept@) == rename_map(
                    entries_map(self.entries@.subrange(0, i as int)),
                    from.deep_view(),
                    to.deep_view(),
                ),
            decreases n - i,
        {
            let ghost s = self.entries@;
            let ghost mpre = entries_map(s.subrange(0, i as int));
            proof {
                let t = s.subrange(0, i + 1);
                assert(t.drop_last() =~= s.subrange(0, i as int));
                assert(t.last() == s[i as int]);
            }
            let e = &self.entries[i];
            if path_starts_with(&e.path, from) {
                let ghost kept0 = kept@;
                let path = path_replace_prefix(&e.path, from.len(), to);
                let node = clone_node(&e.node);
                kept.push(Entry { path, node });
                proof {
                    lemma_path_len(from);
                    assert(kept@.drop_last() =~= kept0);
                    lemma_rename_insert_from(
                        mpre,
                        from.deep_view(),
                        to.deep_view(),
                        s[i as int].path.deep_view(),
                        s[i as int].node@,
                    );
                }
            } else if path_starts_with(&e.path, to) {
                proof {
                    lemma_rename_insert_to(
                        mpre,
                        from.deep_view(),
                        to.deep_view(),
                        s[i as int].path.deep_view(),
                        s[i as int].node@,
                    );
                }
            } else {
                let ghost kept0 = kept@;
                let path = path_clone(&e.path);
                let node = clone_node(&e.node);
                kept.push(Entry { path, node });
                proof {
                    assert(kept@.drop_last() =~= kept0);
                    lemma_rename_insert_other(
                        mpre,
                        from.deep_view(),
                        to.deep_view(),
                        s[i as int].path.deep_view(),
                        s[i as int].node@,
                    );
                }
            }
            i = i + 1;
        }
        proof {
            assert(self.entries@.subrange(0, n as int) =~= self.entries@);
        }
        self.entries = kept;
        Ok(())
    }

    /// The names of the children directly below `p`.  Every returned
    /// name is a child, and every child's name is returned (possibly
    /// more than once).
    pub fn read_dir(&self, p: &Vec<String>) -> (names: Vec<String>)
        ensures
            forall|i: int|
                0 <= i < names@.len() ==> self@.map.dom().contains(
                    p.deep_view().push(names@[i]@),
                ),
            forall|k: Seq<Seq<char>>|
                self@.map.dom().contains(k) && k.len() == p.deep_view().len() + 1 && starts_with(
                    k,
                    p.deep_view(),
                ) ==> exists|i: int| 0 <= i < names@.len() && names@[i]@ == k.last(),
    {
        let mut names: Vec<String> = Vec::new();
        let n = self.entries.len();
        let mut j: usize = 0;
        while j < n
            invariant
                0 <= j <= n,
                n == self.entries.len(),
                forall|i: int|
                    0 <= i < names@.len() ==> self@.map.dom().contains(
                        p.deep_view().push(names@[i]@),
                    ),
                forall|jj: int|
                    0 <= jj < j && self.entries@[jj].path.deep_view().len() == p.deep_view().len()
                        + 1 && starts_with(self.entries@[jj].path.deep_view(), p.deep_view())
                        ==> exists|i: int|
                        0 <= i < names@.len() && names@[i]@ == self.entries@[jj].path.deep_view().last(),
            decreases n - j,
        {
            let e = &self.entries[j];
            if e.path.len() > p.len() && e.path.len() - 1 == p.len() && path_starts_with(&e.path, p) {
                let ghost names0 = names@;
                let name = e.path[e.path.len() - 1].clone();
                names.push(name);
                proof {
                    let kd = self.entries@[j as int].path.deep_view();
                    lemma_path_len(&self.entries@[j as int].path);
                    lemma_path_len(p);
                    lemma_path_index(
                        &self.entries@[j as int].path,
                        kd.len() - 1,
                    );
                    assert(names@[names0.len() as int]@ == kd.last());
                    assert(p.deep_view().push(names@[names0.len() as int]@) =~= kd);
                    lemma_entry_key_in_map(self.entries@, j as int);
                    assert(forall|i: int|
                        0 <= i < names0.len() ==> names@[i] == names0[i]);
                }
            }
            j = j + 1;
        }
        proof {
            assert forall|k: Seq<Seq<char>>|
                self@.map.dom().contains(k) && k.len() == p.deep_view().len() + 1 && starts_with(
                    k,
                    p.deep_view(),
                ) implies exists|i: int| 0 <= i < names@.len() && names@[i]@ == k.last() by {
                lemma_map_key_has_entry(self.entries@, k);
            }
        }
        names
    }

    /// Make a fresh scratch directory under `parent`, named from `stem`
    /// and the counter.  Fails (leaving the map unchanged) exactly when
    /// the candidate path is related to an existing one.
    pub fn create_temp_dir(&mut self, parent: &Vec<String>, stem: &str) -> (r: Option<
        Vec<String>,
    >)
        ensures
            final(self)@.counter == next_counter(old(self)@.counter),
            final(self)@.fail_remove == old(self)@.fail_remove,
            final(self)@.fail_rename == old(self)@.fail_rename,
            match r {
                Some(p) => p.deep_view() == parent.deep_view().push(
                    temp_name(stem@, old(self)@.counter),
                ) && nothing_under(old(self)@.map, p.deep_view()) && final(self)@.map == old(
                    self,
                )@.map.insert(p.deep_view(), NodeV::Dir),
                None => !nothing_under(
                    old(self)@.map,
                    parent.deep_view().push(temp_name(stem@, old(self)@.counter)),
                ) && final(self)@.map == old(self)@.map,
            },
    {
        let mut name = stem.to_owned();
        name.append("-");
        let digits = encode_dec(self.tmp_counter);
        name.append(digits.as_str());
        let cand = path_push(parent, name.as_str());
        let n = self.entries.len();
        let mut j: usize = 0;
        while j < n
            invariant
                0 <= j <= n,
                n == self.entries.len(),
                cand.deep_view() == parent.deep_view().push(temp_name(stem@, old(self)@.counter)),
                self@ == old(self)@,
                forall|jj: int|
                    0 <= jj < j ==> !starts_with(
                        self.entries@[jj].path.deep_view(),
                        cand.deep_view(),
                    ),
            decreases n - j,
        {
            let e = &self.entries[j];
            if path_starts_with(&e.path, &cand) {
                proof {
                    lemma_entry_key_in_map(self.entries@, j as int);
                }
                if self.tmp_counter < u64::MAX {
                    self.tmp_counter = self.tmp_counter + 1;
                }
                return None;
            }
            j = j + 1;
        }
        proof {
            assert forall|k: Seq<Seq<char>>| self@.map.dom().contains(k) implies !starts_with(
                k,
                cand.deep_view(),
            ) by {
                lemma_map_key_has_entry(self.entries@, k);
            }
        }
        if self.tmp_counter < u64::MAX {
            self.tmp_counter = self.tmp_counter + 1;
        }
        let ghost s0 = self.entries@;
        let path = path_clone(&cand);
        self.entries.push(Entry { path, node: Node::Dir });
        proof {
            assert(self.entries@.drop_last() =~= s0);
        }
        Some(cand)
    }
}


/// A direct child path lies below its parent.
pub proof fn lemma_push_starts_with_pub(base: Seq<Seq<char>>, x: Seq<char>)
    ensures
        starts_with(base.push(x), base),
{
    assert(base.push(x).subrange(0, base.len() as int) =~= base);
}

} // verus!
