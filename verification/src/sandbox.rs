//! The sandbox root, modelled as a map from entry paths to filesystem nodes.
//!
//! Layers are applied in listed order; applying an entry overwrites whatever
//! an earlier layer put at the same path. Once the root is sealed no further
//! entry can be applied.

use vstd::prelude::*;

verus! {

/// One node of the sandbox tree: a regular file with its mode and contents,
/// a directory with its mode, a symbolic link with its target, or a hard
/// link to another path of the root.
#[derive(Debug)]
pub enum FsNode {
    File(u32, Vec<u8>),
    Dir(u32),
    Symlink(Vec<u8>),
    Hardlink(Vec<u8>),
}

/// The mathematical value of an [`FsNode`].
pub enum FsNodeView {
    File(u32, Seq<u8>),
    Dir(u32),
    Symlink(Seq<u8>),
    Hardlink(Seq<u8>),
}

impl View for FsNode {
    type V = FsNodeView;

    open spec fn view(&self) -> FsNodeView {
        match self {
            FsNode::File(mode, data) => FsNodeView::File(*mode, data@),
            FsNode::Dir(mode) => FsNodeView::Dir(*mode),
            FsNode::Symlink(target) => FsNodeView::Symlink(target@),
            FsNode::Hardlink(target) => FsNodeView::Hardlink(target@),
        }
    }
}

/// One archive entry: the path it is applied at, and the node it installs.
#[derive(Debug)]
pub struct FsEntry {
    pub path: Vec<u8>,
    pub node: FsNode,
}

/// The mathematical value of an [`FsEntry`].
pub struct FsEntryView {
    pub path: Seq<u8>,
    pub node: FsNodeView,
}

impl View for FsEntry {
    type V = FsEntryView;

    open spec fn view(&self) -> FsEntryView {
        FsEntryView { path: self.path@, node: self.node@ }
    }
}

/// The mathematical values of a sequence of entries.
pub open spec fn views_of(s: Seq<FsEntry>) -> Seq<FsEntryView> {
    s.map_values(|e: FsEntry| e@)
}

/// The map described by a sequence of applied entries: each entry overwrites
/// earlier entries at the same path, so the last occurrence wins.
pub open spec fn map_of(es: Seq<FsEntryView>) -> Map<Seq<u8>, FsNodeView>
    decreases es.len(),
{
    if es.len() == 0 {
        Map::empty()
    } else {
        map_of(es.drop_last()).insert(es.last().path, es.last().node)
    }
}

/// Applying a sequence of entries to a map, first entry first.
pub open spec fn apply_all(m: Map<Seq<u8>, FsNodeView>, es: Seq<FsEntryView>) -> Map<
    Seq<u8>,
    FsNodeView,
>
    decreases es.len(),
{
    if es.len() == 0 {
        m
    } else {
        apply_all(m.insert(es[0].path, es[0].node), es.skip(1))
    }
}

pub proof fn lemma_apply_all_snoc(m: Map<Seq<u8>, FsNodeView>, es: Seq<FsEntryView>, e: FsEntryView)
    ensures
        apply_all(m, es.push(e)) == apply_all(m, es).insert(e.path, e.node),
    decreases es.len(),
{
    let s = es.push(e);
    assert(s.len() == es.len() + 1);
    assert(apply_all(m, s) == apply_all(m.insert(s[0].path, s[0].node), s.skip(1)));
    if es.len() == 0 {
        assert(s[0] == e);
        assert(s.skip(1) =~= Seq::<FsEntryView>::empty());
    } else {
        assert(s[0] == es[0]);
        lemma_apply_all_snoc(m.insert(es[0].path, es[0].node), es.skip(1), e);
        assert(s.skip(1) =~= es.skip(1).push(e));
    }
}

/// A path no entry of `es` mentions is left exactly as the starting map has it.
pub proof fn lemma_apply_all_untouched(
    m: Map<Seq<u8>, FsNodeView>,
    es: Seq<FsEntryView>,
    p: Seq<u8>,
)
    requires
        forall|k: int| 0 <= k < es.len() ==> es[k].path != p,
    ensures
        apply_all(m, es).contains_key(p) == m.contains_key(p),
        m.contains_key(p) ==> apply_all(m, es)[p] == m[p],
    decreases es.len(),
{
    if es.len() > 0 {
        lemma_apply_all_untouched(m.insert(es[0].path, es[0].node), es.skip(1), p);
    }
}

/// Every key that applying `es` adds to the map is the path of some entry.
pub proof fn lemma_apply_all_new_keys(
    m: Map<Seq<u8>, FsNodeView>,
    es: Seq<FsEntryView>,
    p: Seq<u8>,
)
    requires
        apply_all(m, es).contains_key(p),
        !m.contains_key(p),
    ensures
        exists|k: int| 0 <= k < es.len() && es[k].path == p,
{
    if forall|k: int| 0 <= k < es.len() ==> es[k].path != p {
        lemma_apply_all_untouched(m, es, p);
    }
}

/// Layer application is order-preserving: after applying layer `l1` and then
/// layer `l2`, a path that `l2` writes holds `l2`'s version, whatever `l1`
/// (or the starting map) put there. `i` is the last entry of `l2` at that
/// path.
pub proof fn lemma_later_layer_wins(
    m: Map<Seq<u8>, FsNodeView>,
    l1: Seq<FsEntryView>,
    l2: Seq<FsEntryView>,
    i: int,
)
    requires
        0 <= i < l2.len(),
        forall|j: int| i < j < l2.len() ==> l2[j].path != l2[i].path,
    ensures
        apply_all(apply_all(m, l1), l2).contains_key(l2[i].path),
        apply_all(apply_all(m, l1), l2)[l2[i].path] == l2[i].node,
{
    lemma_apply_all_last_wins(apply_all(m, l1), l2, i);
}

/// In one application, the last entry at a given path decides that path.
pub proof fn lemma_apply_all_last_wins(
    m: Map<Seq<u8>, FsNodeView>,
    es: Seq<FsEntryView>,
    i: int,
)
    requires
        0 <= i < es.len(),
        forall|j: int| i < j < es.len() ==> es[j].path != es[i].path,
    ensures
        apply_all(m, es).contains_key(es[i].path),
        apply_all(m, es)[es[i].path] == es[i].node,
    decreases es.len(),
{
    let m1 = m.insert(es[0].path, es[0].node);
    if i == 0 {
        assert(forall|k: int| 0 <= k < es.skip(1).len() ==> es.skip(1)[k].path != es[0].path);
        lemma_apply_all_untouched(m1, es.skip(1), es[0].path);
    } else {
        lemma_apply_all_last_wins(m1, es.skip(1), i - 1);
        assert(es.skip(1)[i - 1] == es[i]);
    }
}

pub(crate) fn bytes_eq(a: &[u8], b: &[u8]) -> (r: bool)
    ensures
        r == (a@ == b@),
{
    if a.len() != b.len() {
        return false;
    }
    let mut i: usize = 0;
    while i < a.len()
        invariant
            i <= a@.len(),
            a@.len() == b@.len(),
            forall|j: int| 0 <= j < i ==> a@[j] == b@[j],
        decreases a@.len() - i,
    {
        if a[i] != b[i] {
            return false;
        }
        i = i + 1;
    }
    proof {
        assert(a@ =~= b@);
    }
    true
}

/// `q` names a proper ancestor of `p` in the path tree: `p` continues
/// below `q` after a separator.
pub open spec fn dir_prefix_of(q: Seq<u8>, p: Seq<u8>) -> bool {
    q.len() < p.len() && p.subrange(0, q.len() as int) == q && p[q.len() as int] == 47u8
}

/// Some entry of `es` installs a symbolic link at `q`.
pub open spec fn symlink_entry_at(es: Seq<FsEntryView>, q: Seq<u8>) -> bool {
    exists|j: int| 0 <= j < es.len() && #[trigger] es[j].path == q && es[j].node is Symlink
}

/// No ancestor of `p` is a symbolic link in the map `m`, nor the path of
/// any symbolic-link entry of `es`: writing at `p` cannot be redirected
/// through a link.
pub open spec fn ancestors_clear(
    m: Map<Seq<u8>, FsNodeView>,
    es: Seq<FsEntryView>,
    p: Seq<u8>,
) -> bool {
    forall|q: Seq<u8>| #[trigger]
        dir_prefix_of(q, p) ==> !(m.contains_key(q) && m[q] is Symlink) && !symlink_entry_at(
            es,
            q,
        )
}

fn symlink_at(entries: &Vec<FsEntry>, q: &[u8]) -> (r: bool)
    ensures
        r == symlink_entry_at(views_of(entries@), q@),
{
    let ghost evs = views_of(entries@);
    let mut j: usize = 0;
    while j < entries.len()
        invariant
            j <= entries@.len(),
            evs == views_of(entries@),
            forall|t: int|
                0 <= t < j ==> !(#[trigger] evs[t].path == q@ && evs[t].node is Symlink),
        decreases entries@.len() - j,
    {
        proof {
            assert(evs[j as int] == entries@[j as int]@);
        }
        match &entries[j].node {
            FsNode::Symlink(_) => {
                if bytes_eq(entries[j].path.as_slice(), q) {
                    proof {
                        assert(evs[j as int].path == q@);
                        assert(evs[j as int].node is Symlink);
                    }
                    return true;
                }
            },
            _ => {},
        }
        j = j + 1;
    }
    false
}

/// The ephemeral root one invocation populates, seals, and runs inside.
pub struct SandboxRoot {
    entries: Vec<FsEntry>,
    sealed: bool,
}

impl SandboxRoot {
    /// The entries applied so far, in application order.
    pub closed spec fn entries_seq(&self) -> Seq<FsEntryView> {
        views_of(self.entries@)
    }

    /// Whether the root has been sealed (rooted into).
    pub closed spec fn is_sealed(&self) -> bool {
        self.sealed
    }

    /// A fresh, empty, unsealed root.
    pub fn new() -> (r: SandboxRoot)
        ensures
            r@ == Map::<Seq<u8>, FsNodeView>::empty(),
            r.entries_seq() == Seq::<FsEntryView>::empty(),
            !r.is_sealed(),
    {
        let r = SandboxRoot { entries: Vec::new(), sealed: false };
        proof {
            assert(r.entries_seq() =~= Seq::<FsEntryView>::empty());
        }
        r
    }

    /// Whether the root has been sealed.
    pub fn sealed(&self) -> (r: bool)
        ensures
            r == self.is_sealed(),
    {
        self.sealed
    }

    /// Seals the root: a one-way transition after which nothing more can be
    /// applied. Sealing twice is a verification error for the caller.
    pub fn seal(&mut self)
        requires
            !old(self).is_sealed(),
        ensures
            final(self).is_sealed(),
            final(self)@ == old(self)@,
            final(self).entries_seq() == old(self).entries_seq(),
    {
        self.sealed = true;
    }

    /// How many entries have been applied.
    pub fn entry_count(&self) -> (r: usize)
        ensures
            r == self.entries_seq().len(),
    {
        self.entries.len()
    }

    /// The applied entries, in application order, for materialisation.
    pub fn entry_list(&self) -> (r: &Vec<FsEntry>)
        ensures
            views_of(r@) == self.entries_seq(),
    {
        &self.entries
    }

    /// Applies one entry, overwriting whatever the path held.
    pub fn apply_entry(&mut self, e: FsEntry)
        requires
            !old(self).is_sealed(),
        ensures
            final(self)@ == old(self)@.insert(e.path@, e.node@),
            final(self).entries_seq() == old(self).entries_seq().push(e@),
            !final(self).is_sealed(),
    {
        let ghost olds = self.entries_seq();
        self.entries.push(e);
        proof {
            assert(self.entries_seq() =~= olds.push(e@));
            assert(self.entries_seq().drop_last() =~= olds);
        }
    }

    /// Applies a whole layer's entries, first entry first.
    pub fn apply_entries(&mut self, es: Vec<FsEntry>)
        requires
            !old(self).is_sealed(),
        ensures
            final(self)@ == apply_all(old(self)@, views_of(es@)),
            final(self).entries_seq() == old(self).entries_seq() + views_of(es@),
            !final(self).is_sealed(),
    {
        let ghost orig = views_of(es@);
        let ghost m0 = self@;
        let ghost s0 = self.entries_seq();
        let mut rest = es;
        proof {
            assert(views_of(rest@) =~= orig.skip(0));
            assert(s0 + orig.take(0) =~= s0);
        }
        while rest.len() > 0
            invariant
                !self.is_sealed(),
                rest@.len() <= orig.len(),
                views_of(rest@) == orig.skip(orig.len() - rest@.len()),
                apply_all(m0, orig) == apply_all(self@, views_of(rest@)),
                self.entries_seq() == s0 + orig.take(orig.len() - rest@.len()),
            decreases rest@.len(),
        {
            let ghost k = orig.len() - rest@.len();
            let ghost pre = rest@;
            let ghost r0 = views_of(rest@);
            let e = rest.remove(0);
            proof {
                assert(rest@ =~= pre.skip(1)) by {
                    assert(rest@ == pre.remove(0));
                }
                assert(e == pre[0]);
                assert(r0[0] == pre[0]@);
                assert(views_of(rest@) =~= r0.skip(1));
                assert(r0.skip(1) =~= orig.skip(k + 1));
                assert(e@ == r0[0]);
                assert(r0[0] == orig[k]);
            }
            self.apply_entry(e);
            proof {
                assert(self.entries_seq() =~= s0 + orig.take(k + 1));
            }
        }
        proof {
            assert(views_of(rest@) =~= Seq::<FsEntryView>::empty());
            assert(orig.take(orig.len() as int) =~= orig);
        }
    }

    /// Decides whether writing at `p` is free of symbolic-link ancestors,
    /// against this root and against the symbolic links a layer's entries
    /// install anywhere in the layer.
    pub fn clear_for(&self, entries: &Vec<FsEntry>, p: &[u8]) -> (r: bool)
        ensures
            r == ancestors_clear(self@, views_of(entries@), p@),
    {
        let n = p.len();
        let mut i: usize = 0;
        while i < n
            invariant
                i <= n,
                n == p@.len(),
                forall|i2: int|
                    0 <= i2 < i && p@[i2] == 47u8 ==> !(self@.contains_key(
                        #[trigger] p@.subrange(0, i2),
                    ) && self@[p@.subrange(0, i2)] is Symlink) && !symlink_entry_at(
                        views_of(entries@),
                        p@.subrange(0, i2),
                    ),
            decreases n - i,
        {
            if p[i] == 47 {
                let q = vstd::slice::slice_subrange(p, 0, i);
                let mut bad = false;
                match self.lookup(q) {
                    Option::Some(n2) => match n2 {
                        FsNode::Symlink(_) => {
                            bad = true;
                        },
                        _ => {},
                    },
                    Option::None => {},
                }
                if bad {
                    proof {
                        assert(dir_prefix_of(q@, p@));
                        assert(!ancestors_clear(self@, views_of(entries@), p@));
                    }
                    return false;
                }
                if symlink_at(entries, q) {
                    proof {
                        assert(dir_prefix_of(q@, p@));
                        assert(!ancestors_clear(self@, views_of(entries@), p@));
                    }
                    return false;
                }
            }
            i = i + 1;
        }
        proof {
            assert forall|q: Seq<u8>| dir_prefix_of(q, p@) implies !(self@.contains_key(q)
                && self@[q] is Symlink) && !symlink_entry_at(views_of(entries@), q) by {
                let i2 = q.len() as int;
                assert(p@.subrange(0, i2) =~= q);
                assert(p@[i2] == 47u8);
            };
        }
        true
    }

    /// Looks a path up in the root: the last entry applied at that path.
    pub fn lookup(&self, path: &[u8]) -> (r: Option<&FsNode>)
        ensures
            match r {
                Option::None => !self@.contains_key(path@),
                Option::Some(n) => self@.contains_key(path@) && n@ == self@[path@],
            },
    {
        let mut i: usize = self.entries.len();
        while i > 0
            invariant
                i <= self.entries@.len(),
                forall|j: int|
                    i <= j < self.entries@.len() ==> #[trigger] self.entries_seq()[j].path
                        != path@,
            decreases i,
        {
            i = i - 1;
            if bytes_eq(self.entries[i].path.as_slice(), path) {
                proof {
                    assert(self.entries_seq()[i as int].path == path@);
                    lemma_apply_all_from_empty(self.entries_seq());
                    lemma_apply_all_last_wins(
                        Map::<Seq<u8>, FsNodeView>::empty(),
                        self.entries_seq(),
                        i as int,
                    );
                }
                return Some(&self.entries[i].node);
            }
        }
        proof {
            lemma_apply_all_from_empty(self.entries_seq());
            if self@.contains_key(path@) {
                lemma_apply_all_new_keys(
                    Map::<Seq<u8>, FsNodeView>::empty(),
                    self.entries_seq(),
                    path@,
                );
            }
        }
        None
    }
}

impl View for SandboxRoot {
    type V = Map<Seq<u8>, FsNodeView>;

    closed spec fn view(&self) -> Map<Seq<u8>, FsNodeView> {
        map_of(self.entries_seq())
    }
}

/// `map_of` is `apply_all` from the empty map.
pub proof fn lemma_apply_all_from_empty(es: Seq<FsEntryView>)
    ensures
        map_of(es) == apply_all(Map::<Seq<u8>, FsNodeView>::empty(), es),
    decreases es.len(),
{
    if es.len() > 0 {
        lemma_apply_all_from_empty(es.drop_last());
        lemma_apply_all_snoc(Map::<Seq<u8>, FsNodeView>::empty(), es.drop_last(), es.last());
        assert(es.drop_last().push(es.last()) =~= es);
    }
}

} // verus!
