//! Merging an ordered list of layer archives into one filesystem tree.
//!
//! A layer is a sequence of entries, each with a target path and a kind
//! (file, directory, symlink, hardlink). Applying a layer on top of the
//! tree built by the earlier layers honours the archive conventions:
//! a `.wh.<name>` entry deletes `<name>` as contributed by earlier layers,
//! a `.wh..wh..opq` entry resets the directory that holds it, and every
//! target path is validated against escaping the destination root before
//! anything is written. The tree itself is modelled here as plain data;
//! writing it to disk is the embedding application's concern.

use vstd::prelude::*;

use crate::errors::Error;
use crate::util::bytes_eq;

verus! {

/// A path as an archive records it: possibly absolute, with raw
/// components that may still contain `.`, `..` or empty segments.
#[derive(Debug)]
pub struct RawPath {
    pub absolute: bool,
    pub components: Vec<Vec<u8>>,
}

/// One archive entry of a layer.
#[derive(Debug)]
pub enum EntryKind {
    File { data: Vec<u8> },
    Dir,
    Symlink { target: RawPath },
    Hardlink { target: RawPath },
}

pub struct LayerEntry {
    pub path: RawPath,
    pub kind: EntryKind,
}

/// A node of the rendered tree.
#[derive(Debug)]
pub enum Node {
    File(Vec<u8>),
    Dir,
    Symlink(Vec<Vec<u8>>),
}

/// The mathematical value of a node.
pub ghost enum NodeV {
    File(Seq<u8>),
    Dir,
    Symlink(Seq<Seq<u8>>),
}

pub open spec fn node_view(n: Node) -> NodeV {
    match n {
        Node::File(d) => NodeV::File(d@),
        Node::Dir => NodeV::Dir,
        Node::Symlink(t) => NodeV::Symlink(t.deep_view()),
    }
}

/// The rendered tree: a flat association from normalized paths to nodes.
/// A later entry for the same path supersedes an earlier one.
pub struct Fs {
    pub entries: Vec<(Vec<Vec<u8>>, Node)>,
}

/// The map a flat entry list denotes, later entries winning.
pub open spec fn fs_map_of(es: Seq<(Vec<Vec<u8>>, Node)>) -> Map<Seq<Seq<u8>>, NodeV>
    decreases es.len(),
{
    if es.len() == 0 {
        Map::empty()
    } else {
        fs_map_of(es.drop_last()).insert(es.last().0.deep_view(), node_view(es.last().1))
    }
}

impl Fs {
    pub open spec fn view(&self) -> Map<Seq<Seq<u8>>, NodeV> {
        fs_map_of(self.entries@)
    }

    /// An empty destination root.
    pub fn new() -> (fs: Fs)
        ensures
            fs@ == Map::<Seq<Seq<u8>>, NodeV>::empty(),
    {
        Fs { entries: Vec::new() }
    }
}

/// Is `a` a (non-strict) leading prefix of path `b`?
pub open spec fn is_path_prefix(a: Seq<Seq<u8>>, b: Seq<Seq<u8>>) -> bool {
    a.len() <= b.len() && a == b.subrange(0, a.len() as int)
}

/// Is `k` the path `t` itself or anything below it?
pub open spec fn under_eq(k: Seq<Seq<u8>>, t: Seq<Seq<u8>>) -> bool {
    is_path_prefix(t, k)
}

/// Is `k` strictly below the directory `t`?
pub open spec fn strictly_under(k: Seq<Seq<u8>>, t: Seq<Seq<u8>>) -> bool {
    is_path_prefix(t, k) && k.len() > t.len()
}

/// Compare two stored paths component by component.
pub fn path_eq(a: &Vec<Vec<u8>>, b: &Vec<Vec<u8>>) -> (r: bool)
    ensures
        r == (a.deep_view() == b.deep_view()),
{
    if a.len() != b.len() {
        proof {
            assert(a.deep_view().len() == a@.len());
            assert(b.deep_view().len() == b@.len());
        }
        return false;
    }
    let mut i: usize = 0;
    while i < a.len()
        invariant
            0 <= i <= a@.len(),
            a@.len() == b@.len(),
            a.deep_view().len() == a@.len(),
            b.deep_view().len() == b@.len(),
            forall|j: int| 0 <= j < i ==> a.deep_view()[j] == b.deep_view()[j],
        decreases a@.len() - i,
    {
        proof {
            assert(a.deep_view()[i as int] == a@[i as int]@);
            assert(b.deep_view()[i as int] == b@[i as int]@);
        }
        if !bytes_eq(&a[i], &b[i]) {
            return false;
        }
        i = i + 1;
    }
    proof {
        assert(a.deep_view() =~= b.deep_view());
    }
    true
}

/// Is stored path `a` a leading prefix of stored path `b`?
pub fn path_prefix(a: &Vec<Vec<u8>>, b: &Vec<Vec<u8>>) -> (r: bool)
    ensures
        r == is_path_prefix(a.deep_view(), b.deep_view()),
{
    if a.len() > b.len() {
        proof {
            assert(a.deep_view().len() == a@.len());
            assert(b.deep_view().len() == b@.len());
        }
        return false;
    }
    let mut i: usize = 0;
    while i < a.len()
        invariant
            0 <= i <= a@.len() <= b@.len(),
            a.deep_view().len() == a@.len(),
            b.deep_view().len() == b@.len(),
            forall|j: int| 0 <= j < i ==> a.deep_view()[j] == b.deep_view()[j],
        decreases a@.len() - i,
    {
        proof {
            assert(a.deep_view()[i as int] == a@[i as int]@);
            assert(b.deep_view()[i as int] == b@[i as int]@);
        }
        if !bytes_eq(&a[i], &b[i]) {
            proof {
                assert(!is_path_prefix(a.deep_view(), b.deep_view())) by {
                    if is_path_prefix(a.deep_view(), b.deep_view()) {
                        assert(b.deep_view().subrange(0, a.deep_view().len() as int)[i as int]
                            == b.deep_view()[i as int]);
                    }
                }
            }
            return false;
        }
        i = i + 1;
    }
    proof {
        assert(a.deep_view() =~= b.deep_view().subrange(0, a.deep_view().len() as int));
    }
    true
}

/// The bytes of a `..` path segment.
pub open spec fn dotdot_seg() -> Seq<u8> {
    seq![46u8, 46u8]
}

/// The bytes of a `.` path segment.
pub open spec fn dot_seg() -> Seq<u8> {
    seq![46u8]
}

/// The bytes of the `.wh.` whiteout prefix.
pub open spec fn wh_prefix() -> Seq<u8> {
    seq![46u8, 119u8, 104u8, 46u8]
}

/// The bytes of the `.wh..wh..opq` opaque-directory marker.
pub open spec fn opaque_marker() -> Seq<u8> {
    seq![46u8, 119u8, 104u8, 46u8, 46u8, 119u8, 104u8, 46u8, 46u8, 111u8, 112u8, 113u8]
}

/// Does this basename carry the whiteout prefix?
pub open spec fn is_whiteout_name(base: Seq<u8>) -> bool {
    base.len() >= 4 && base.subrange(0, 4) == wh_prefix()
}

/// The name a whiteout basename deletes.
pub open spec fn whiteout_victim(base: Seq<u8>) -> Seq<u8> {
    base.subrange(4, base.len() as int)
}

/// Normalizing a relative path, segment by segment: `.` and empty
/// segments vanish, a `..` segment makes the whole path inadmissible.
pub open spec fn norm_comps(cs: Seq<Seq<u8>>) -> Option<Seq<Seq<u8>>>
    decreases cs.len(),
{
    if cs.len() == 0 {
        Some(Seq::empty())
    } else {
        match norm_comps(cs.drop_last()) {
            Option::None => None,
            Option::Some(r) => {
                if cs.last() == dotdot_seg() {
                    None
                } else if cs.last() == dot_seg() || cs.last().len() == 0 {
                    Some(r)
                } else {
                    Some(r.push(cs.last()))
                }
            },
        }
    }
}

/// The in-root form of an entry's target path, if it has one: an absolute
/// path or any parent-directory segment is rejected outright.
pub open spec fn normalize_spec(p: RawPath) -> Option<Seq<Seq<u8>>> {
    if p.absolute {
        None
    } else {
        norm_comps(p.components.deep_view())
    }
}

proof fn lemma_norm_none_extends(cs: Seq<Seq<u8>>, i: int, j: int)
    requires
        0 <= i <= j <= cs.len(),
        norm_comps(cs.subrange(0, i)) is None,
    ensures
        norm_comps(cs.subrange(0, j)) is None,
    decreases j - i,
{
    if i < j {
        assert(cs.subrange(0, i + 1).drop_last() =~= cs.subrange(0, i));
        lemma_norm_none_extends(cs, i + 1, j);
    }
}

/// Where a symlink recorded at a directory of depth `acc` leads: `..`
/// climbs, and climbing above the destination root is an escape.
pub open spec fn resolve_steps(acc: Seq<Seq<u8>>, cs: Seq<Seq<u8>>) -> Option<Seq<Seq<u8>>>
    decreases cs.len(),
{
    if cs.len() == 0 {
        Some(acc)
    } else if cs[0] == dotdot_seg() {
        if acc.len() == 0 {
            None
        } else {
            resolve_steps(acc.drop_last(), cs.drop_first())
        }
    } else if cs[0] == dot_seg() || cs[0].len() == 0 {
        resolve_steps(acc, cs.drop_first())
    } else {
        resolve_steps(acc.push(cs[0]), cs.drop_first())
    }
}

/// Where a link target points when resolved against the directory `base`
/// inside the destination root, or nothing if it escapes the root.
pub open spec fn resolve_link_spec(base: Seq<Seq<u8>>, t: RawPath) -> Option<Seq<Seq<u8>>> {
    if t.absolute {
        None
    } else {
        resolve_steps(base, t.components.deep_view())
    }
}

fn dotdot_vec() -> (v: Vec<u8>)
    ensures
        v@ == dotdot_seg(),
{
    let mut v: Vec<u8> = Vec::new();
    v.push(46);
    v.push(46);
    proof {
        assert(v@ =~= dotdot_seg());
    }
    v
}

fn dot_vec() -> (v: Vec<u8>)
    ensures
        v@ == dot_seg(),
{
    let mut v: Vec<u8> = Vec::new();
    v.push(46);
    proof {
        assert(v@ =~= dot_seg());
    }
    v
}

fn opaque_marker_vec() -> (v: Vec<u8>)
    ensures
        v@ == opaque_marker(),
{
    let mut v: Vec<u8> = Vec::new();
    v.push(46);
    v.push(119);
    v.push(104);
    v.push(46);
    v.push(46);
    v.push(119);
    v.push(104);
    v.push(46);
    v.push(46);
    v.push(111);
    v.push(112);
    v.push(113);
    proof {
        assert(v@ =~= opaque_marker());
    }
    v
}

/// Copy a byte vector.
pub fn clone_bytes(v: &Vec<u8>) -> (r: Vec<u8>)
    ensures
        r@ == v@,
{
    let r = crate::util::subvec(v, 0, v.len());
    proof {
        assert(r@ =~= v@);
    }
    r
}

/// Copy a stored path.
pub fn clone_path(p: &Vec<Vec<u8>>) -> (r: Vec<Vec<u8>>)
    ensures
        r.deep_view() == p.deep_view(),
{
    let mut r: Vec<Vec<u8>> = Vec::new();
    let mut i: usize = 0;
    proof {
        assert(r.deep_view() =~= p.deep_view().subrange(0, 0));
    }
    while i < p.len()
        invariant
            0 <= i <= p@.len(),
            p.deep_view().len() == p@.len(),
            r.deep_view() == p.deep_view().subrange(0, i as int),
        decreases p@.len() - i,
    {
        let ghost pre = r.deep_view();
        r.push(clone_bytes(&p[i]));
        proof {
            assert(r.deep_view() =~~= pre.push(p@[i as int]@));
            assert(p.deep_view()[i as int] == p@[i as int]@);
            assert(r.deep_view() =~~= p.deep_view().subrange(0, i + 1));
        }
        i = i + 1;
    }
    proof {
        assert(p.deep_view().subrange(0, p@.len() as int) =~= p.deep_view());
    }
    r
}

/// Normalize an entry's target path, or report that it is inadmissible.
pub fn normalize(p: &RawPath) -> (r: Option<Vec<Vec<u8>>>)
    ensures
        (r is Some) == (normalize_spec(*p) is Some),
        r is Some ==> r.unwrap().deep_view() == normalize_spec(*p).unwrap(),
{
    if p.absolute {
        return None;
    }
    let dd = dotdot_vec();
    let d = dot_vec();
    let n: usize = p.components.len();
    let mut acc: Vec<Vec<u8>> = Vec::new();
    let mut i: usize = 0;
    proof {
        assert(p.components.deep_view().subrange(0, 0) =~= Seq::<Seq<u8>>::empty());
        assert(acc.deep_view() =~= Seq::<Seq<u8>>::empty());
    }
    while i < n
        invariant
            0 <= i <= n == p.components@.len(),
            p.components.deep_view().len() == n,
            dd@ == dotdot_seg(),
            d@ == dot_seg(),
            norm_comps(p.components.deep_view().subrange(0, i as int)) == Some(acc.deep_view()),
        decreases n - i,
    {
        let ghost cs = p.components.deep_view();
        proof {
            assert(cs.subrange(0, i + 1).drop_last() =~= cs.subrange(0, i as int));
            assert(cs.subrange(0, i + 1).last() == cs[i as int]);
            assert(cs[i as int] == p.components@[i as int]@);
        }
        if bytes_eq(&p.components[i], &dd) {
            proof {
                lemma_norm_none_extends(cs, i + 1, n as int);
                assert(cs.subrange(0, n as int) =~= cs);
            }
            return None;
        } else if bytes_eq(&p.components[i], &d) || p.components[i].len() == 0 {
        } else {
            let ghost pre = acc.deep_view();
            acc.push(clone_bytes(&p.components[i]));
            proof {
                assert(acc.deep_view() =~~= pre.push(cs[i as int]));
            }
        }
        i = i + 1;
    }
    proof {
        assert(p.components.deep_view().subrange(0, n as int) =~= p.components.deep_view());
    }
    Some(acc)
}

/// Resolve a link target against the directory holding the link.
pub fn resolve_link(base: &Vec<Vec<u8>>, t: &RawPath) -> (r: Option<Vec<Vec<u8>>>)
    ensures
        (r is Some) == (resolve_link_spec(base.deep_view(), *t) is Some),
        r is Some ==> r.unwrap().deep_view() == resolve_link_spec(base.deep_view(), *t).unwrap(),
{
    if t.absolute {
        return None;
    }
    let dd = dotdot_vec();
    let d = dot_vec();
    let n: usize = t.components.len();
    let mut acc: Vec<Vec<u8>> = clone_path(base);
    let mut i: usize = 0;
    proof {
        assert(t.components.deep_view().subrange(0, n as int) =~= t.components.deep_view());
    }
    while i < n
        invariant
            0 <= i <= n == t.components@.len(),
            t.components.deep_view().len() == n,
            dd@ == dotdot_seg(),
            d@ == dot_seg(),
            resolve_steps(base.deep_view(), t.components.deep_view()) == resolve_steps(
                acc.deep_view(),
                t.components.deep_view().subrange(i as int, n as int),
            ),
        decreases n - i,
    {
        let ghost cs = t.components.deep_view();
        let ghost rest = cs.subrange(i as int, n as int);
        proof {
            assert(rest[0] == cs[i as int]);
            assert(cs[i as int] == t.components@[i as int]@);
            assert(rest.drop_first() =~= cs.subrange(i + 1, n as int));
        }
        if bytes_eq(&t.components[i], &dd) {
            if acc.len() == 0 {
                proof {
                    assert(acc.deep_view().len() == 0);
                }
                return None;
            }
            let ghost pre = acc.deep_view();
            acc.pop();
            proof {
                assert(acc.deep_view() =~~= pre.drop_last());
            }
        } else if bytes_eq(&t.components[i], &d) || t.components[i].len() == 0 {
        } else {
            let ghost pre = acc.deep_view();
            acc.push(clone_bytes(&t.components[i]));
            proof {
                assert(acc.deep_view() =~~= pre.push(cs[i as int]));
            }
        }
        i = i + 1;
    }
    proof {
        assert(t.components.deep_view().subrange(n as int, n as int) =~= Seq::<Seq<u8>>::empty());
    }
    Some(acc)
}

/// Copy the first `n` components of a stored path.
pub fn prefix_vec(p: &Vec<Vec<u8>>, n: usize) -> (r: Vec<Vec<u8>>)
    requires
        n <= p@.len(),
    ensures
        r.deep_view() == p.deep_view().subrange(0, n as int),
{
    let mut r: Vec<Vec<u8>> = Vec::new();
    let mut i: usize = 0;
    proof {
        assert(r.deep_view() =~= p.deep_view().subrange(0, 0));
    }
    while i < n
        invariant
            0 <= i <= n <= p@.len(),
            p.deep_view().len() == p@.len(),
            r.deep_view() == p.deep_view().subrange(0, i as int),
        decreases n - i,
    {
        let ghost pre = r.deep_view();
        r.push(clone_bytes(&p[i]));
        proof {
            assert(r.deep_view() =~~= pre.push(p@[i as int]@));
            assert(p.deep_view()[i as int] == p@[i as int]@);
            assert(r.deep_view() =~~= p.deep_view().subrange(0, i + 1));
        }
        i = i + 1;
    }
    r
}

/// Copy a node.
pub fn clone_node(n: &Node) -> (r: Node)
    ensures
        node_view(r) == node_view(*n),
{
    match n {
        Node::File(d) => Node::File(clone_bytes(d)),
        Node::Dir => Node::Dir,
        Node::Symlink(t) => Node::Symlink(clone_path(t)),
    }
}

/// A whiteout for `t`: everything at or below `t` disappears.
pub open spec fn whiteout_model(m: Map<Seq<Seq<u8>>, NodeV>, t: Seq<Seq<u8>>) -> Map<
    Seq<Seq<u8>>,
    NodeV,
> {
    Map::new(|k: Seq<Seq<u8>>| m.dom().contains(k) && !under_eq(k, t), |k: Seq<Seq<u8>>| m[k])
}

/// An opaque reset of directory `d`: everything strictly below `d`
/// disappears, `d` itself is retained.
pub open spec fn opaque_clear_model(m: Map<Seq<Seq<u8>>, NodeV>, d: Seq<Seq<u8>>) -> Map<
    Seq<Seq<u8>>,
    NodeV,
> {
    Map::new(|k: Seq<Seq<u8>>| m.dom().contains(k) && !strictly_under(k, d), |k: Seq<Seq<u8>>| m[k])
}

/// Defensive creation of missing parents: every proper, non-empty prefix
/// of `p` that is absent becomes a directory; present paths are untouched.
pub open spec fn add_parents_model(m: Map<Seq<Seq<u8>>, NodeV>, p: Seq<Seq<u8>>) -> Map<
    Seq<Seq<u8>>,
    NodeV,
> {
    Map::new(
        |k: Seq<Seq<u8>>| m.dom().contains(k) || (is_path_prefix(k, p) && 1 <= k.len() < p.len()),
        |k: Seq<Seq<u8>>|
            if m.dom().contains(k) {
                m[k]
            } else {
                NodeV::Dir
            },
    )
}

/// A regular entry lands at `p` after its parents are created.
pub open spec fn insert_model(m: Map<Seq<Seq<u8>>, NodeV>, p: Seq<Seq<u8>>, v: NodeV) -> Map<
    Seq<Seq<u8>>,
    NodeV,
> {
    add_parents_model(m, p).insert(p, v)
}

/// Why applying an entry can fail.
pub ghost enum RenderFail {
    Traversal,
    LinkTarget,
}

/// What one archive entry does to the tree:
/// - an inadmissible target path or link target is a traversal failure;
/// - an entry whose normalized path is empty changes nothing;
/// - a `.wh..wh..opq` basename resets the directory that holds it;
/// - any other `.wh.<name>` basename whites `<name>` out;
/// - a file, directory or symlink lands at its path, parents created;
/// - a hardlink copies the file node its target names, and fails if the
///   target is not a present file.
pub open spec fn apply_entry_model(m: Map<Seq<Seq<u8>>, NodeV>, e: LayerEntry) -> Result<
    Map<Seq<Seq<u8>>, NodeV>,
    RenderFail,
> {
    match normalize_spec(e.path) {
        Option::None => Err(RenderFail::Traversal),
        Option::Some(p) => {
            if p.len() == 0 {
                Ok(m)
            } else {
                let base = p.last();
                let parent = p.drop_last();
                if base == opaque_marker() {
                    Ok(add_parents_model(opaque_clear_model(m, parent), p))
                } else if is_whiteout_name(base) {
                    Ok(whiteout_model(m, parent.push(whiteout_victim(base))))
                } else {
                    match e.kind {
                        EntryKind::File { data } => Ok(insert_model(m, p, NodeV::File(data@))),
                        EntryKind::Dir => Ok(insert_model(m, p, NodeV::Dir)),
                        EntryKind::Symlink { target } => match resolve_link_spec(parent, target) {
                            Option::None => Err(RenderFail::Traversal),
                            Option::Some(t) => Ok(insert_model(m, p, NodeV::Symlink(t))),
                        },
                        EntryKind::Hardlink { target } => match normalize_spec(target) {
                            Option::None => Err(RenderFail::Traversal),
                            Option::Some(t) => {
                                if m.dom().contains(t) && m[t] is File {
                                    Ok(insert_model(m, p, m[t]))
                                } else {
                                    Err(RenderFail::LinkTarget)
                                }
                            },
                        },
                    }
                }
            }
        },
    }
}

impl Fs {
    /// The node stored at `path`, if any.
    pub fn lookup(&self, path: &Vec<Vec<u8>>) -> (r: Option<&Node>)
        ensures
            (r is Some) == self@.dom().contains(path.deep_view()),
            r is Some ==> node_view(*r.unwrap()) == self@[path.deep_view()],
    {
        let ghost pv = path.deep_view();
        let mut i: usize = self.entries.len();
        proof {
            assert(self.entries@.subrange(0, self.entries@.len() as int) =~= self.entries@);
        }
        while i > 0
            invariant
                0 <= i <= self.entries@.len(),
                pv == path.deep_view(),
                fs_map_of(self.entries@).dom().contains(pv) == fs_map_of(
                    self.entries@.subrange(0, i as int),
                ).dom().contains(pv),
                fs_map_of(self.entries@).dom().contains(pv) ==> fs_map_of(
                    self.entries@.subrange(0, i as int),
                )[pv] == fs_map_of(self.entries@)[pv],
            decreases i,
        {
            i = i - 1;
            let ghost prefix = self.entries@.subrange(0, i + 1);
            proof {
                assert(prefix.drop_last() =~= self.entries@.subrange(0, i as int));
                assert(prefix.last() == self.entries@[i as int]);
            }
            if path_eq(&self.entries[i].0, path) {
                return Some(&self.entries[i].1);
            }
        }
        proof {
            assert(self.entries@.subrange(0, 0) =~= Seq::<(Vec<Vec<u8>>, Node)>::empty());
        }
        None
    }

    /// Record `node` at `path`, superseding anything already there.
    pub fn push_entry(&mut self, path: Vec<Vec<u8>>, node: Node)
        ensures
            final(self)@ == old(self)@.insert(path.deep_view(), node_view(node)),
    {
        let ghost pv = path.deep_view();
        let ghost nv = node_view(node);
        let ghost pre = self.entries@;
        self.entries.push((path, node));
        proof {
            assert(self.entries@.drop_last() =~= pre);
            assert(self.entries@.last().0.deep_view() == pv);
            assert(node_view(self.entries@.last().1) == nv);
        }
    }

    /// Drop everything at or below `t` (`strict == false`), or everything
    /// strictly below `t` (`strict == true`).
    pub fn remove_under(&mut self, t: &Vec<Vec<u8>>, strict: bool)
        ensures
            strict ==> final(self)@ == opaque_clear_model(old(self)@, t.deep_view()),
            !strict ==> final(self)@ == whiteout_model(old(self)@, t.deep_view()),
    {
        let ghost tv = t.deep_view();
        let ghost es = self.entries@;
        let mut out: Vec<(Vec<Vec<u8>>, Node)> = Vec::new();
        let mut i: usize = 0;
        proof {
            assert(es.subrange(0, 0) =~= Seq::<(Vec<Vec<u8>>, Node)>::empty());
        }
        while i < self.entries.len()
            invariant
                0 <= i <= self.entries@.len(),
                es == self.entries@,
                tv == t.deep_view(),
                tv.len() == t@.len(),
                forall|k: Seq<Seq<u8>>| #[trigger]
                    fs_map_of(out@).dom().contains(k) == (fs_map_of(
                        es.subrange(0, i as int),
                    ).dom().contains(k) && !(under_eq(k, tv) && (!strict || k.len() > tv.len()))),
                forall|k: Seq<Seq<u8>>|
                    #![trigger fs_map_of(out@)[k]]
                    fs_map_of(out@).dom().contains(k) ==> fs_map_of(out@)[k] == fs_map_of(
                        es.subrange(0, i as int),
                    )[k],
            decreases self.entries@.len() - i,
        {
            let ghost prefix = es.subrange(0, i + 1);
            proof {
                assert(prefix.drop_last() =~= es.subrange(0, i as int));
                assert(prefix.last() == es[i as int]);
            }
            let key_matches = path_prefix(t, &self.entries[i].0);
            let dropped = key_matches && (!strict || self.entries[i].0.len() > t.len());
            proof {
                assert(es[i as int].0.deep_view().len() == es[i as int].0@.len());
                assert(tv.len() == t@.len());
                assert(dropped == (under_eq(es[i as int].0.deep_view(), tv) && (!strict
                    || es[i as int].0.deep_view().len() > tv.len())));
            }
            let ghost pre_out = out@;
            if !dropped {
                let key = clone_path(&self.entries[i].0);
                let node = clone_node(&self.entries[i].1);
                out.push((key, node));
                proof {
                    assert(out@.drop_last() =~= pre_out);
                    assert(out@.last().0.deep_view() == es[i as int].0.deep_view());
                    assert(node_view(out@.last().1) == node_view(es[i as int].1));
                }
            }
            proof {
                let ki = es[i as int].0.deep_view();
                let vi = node_view(es[i as int].1);
                assert(fs_map_of(prefix) == fs_map_of(es.subrange(0, i as int)).insert(ki, vi));
                if !dropped {
                    assert(fs_map_of(out@) == fs_map_of(pre_out).insert(ki, vi));
                }
                assert forall|k: Seq<Seq<u8>>| #[trigger]
                    fs_map_of(out@).dom().contains(k) == (fs_map_of(prefix).dom().contains(k) && !(
                    under_eq(k, tv) && (!strict || k.len() > tv.len()))) by {
                    if k != ki {
                        assert(fs_map_of(out@).dom().contains(k) == fs_map_of(
                            pre_out,
                        ).dom().contains(k));
                        assert(fs_map_of(prefix).dom().contains(k) == fs_map_of(
                            es.subrange(0, i as int),
                        ).dom().contains(k));
                    }
                }
                assert forall|k: Seq<Seq<u8>>|
                    #![trigger fs_map_of(out@)[k]]
                    fs_map_of(out@).dom().contains(k) implies fs_map_of(out@)[k] == fs_map_of(
                    prefix,
                )[k] by {
                    if k != ki {
                        assert(fs_map_of(out@)[k] == fs_map_of(pre_out)[k]);
                        assert(fs_map_of(pre_out).dom().contains(k));
                        assert(fs_map_of(prefix)[k] == fs_map_of(es.subrange(0, i as int))[k]);
                    }
                }
            }
            i = i + 1;
        }
        proof {
            assert(es.subrange(0, es.len() as int) =~= es);
        }
        self.entries = out;
        proof {
            if strict {
                assert(final(self)@ =~= opaque_clear_model(fs_map_of(es), tv));
            } else {
                assert(final(self)@ =~= whiteout_model(fs_map_of(es), tv));
            }
        }
    }

    /// Create every missing parent directory of `path`.
    pub fn ensure_parents(&mut self, path: &Vec<Vec<u8>>)
        ensures
            final(self)@ == add_parents_model(old(self)@, path.deep_view()),
    {
        let ghost pv = path.deep_view();
        let ghost m0 = self@;
        let mut pre: Vec<Vec<u8>> = Vec::new();
        let n_par: usize = if path.len() == 0 { 0 } else { path.len() - 1 };
        let mut j: usize = 0;
        proof {
            assert(pre.deep_view() =~= pv.subrange(0, 0));
            assert(pv.len() == path@.len());
        }
        while j < n_par
            invariant
                0 <= j <= n_par <= path@.len(),
                n_par == (if path@.len() == 0 { 0int } else { path@.len() - 1 }),
                pv == path.deep_view(),
                pv.len() == path@.len(),
                pre.deep_view() == pv.subrange(0, j as int),
                m0 == old(self)@,
                forall|k: Seq<Seq<u8>>| #[trigger]
                    self@.dom().contains(k) == (m0.dom().contains(k) || (is_path_prefix(k, pv) && 1
                        <= k.len() <= j)),
                forall|k: Seq<Seq<u8>>|
                    #![trigger self@[k]]
                    self@.dom().contains(k) ==> self@[k] == (if m0.dom().contains(k) {
                        m0[k]
                    } else {
                        NodeV::Dir
                    }),
            decreases path@.len() - j,
        {
            let ghost pre_dv = pre.deep_view();
            pre.push(clone_bytes(&path[j]));
            proof {
                assert(pre.deep_view() =~~= pre_dv.push(path@[j as int]@));
                assert(pv[j as int] == path@[j as int]@);
                assert(pre.deep_view() =~~= pv.subrange(0, j + 1));
                assert(is_path_prefix(pre.deep_view(), pv));
            }
            let present = self.lookup(&pre).is_some();
            if !present {
                let copy = clone_path(&pre);
                self.push_entry(copy, Node::Dir);
            }
            proof {
                assert forall|k: Seq<Seq<u8>>| #[trigger]
                    self@.dom().contains(k) == (m0.dom().contains(k) || (is_path_prefix(k, pv) && 1
                        <= k.len() <= j + 1)) by {
                    if k.len() == j + 1 && is_path_prefix(k, pv) {
                        assert(k =~= pv.subrange(0, j + 1));
                    }
                }
            }
            j = j + 1;
        }
        proof {
            assert(final(self)@ =~= add_parents_model(m0, pv));
        }
    }

    /// Apply one archive entry, after validating its paths.
    ///
    /// An inadmissible entry path or link target aborts with
    /// `PathTraversal` before anything is written; a hardlink whose target
    /// is not a present file aborts with `FatalIo`.
    pub fn apply_entry(&mut self, e: &LayerEntry) -> (r: Result<(), Error>)
        ensures
            (r is Ok) == (apply_entry_model(old(self)@, *e) is Ok),
            apply_entry_model(old(self)@, *e) matches Ok(m) ==> final(self)@ == m,
            r is Err ==> final(self)@ == old(self)@,
            (r matches Err(Error::PathTraversal(_))) == (apply_entry_model(old(self)@, *e)
                matches Err(RenderFail::Traversal)),
            (r matches Err(Error::FatalIo(_))) == (apply_entry_model(old(self)@, *e) matches Err(
                RenderFail::LinkTarget,
            )),
    {
        let p_opt = normalize(&e.path);
        let mut p = match p_opt {
            Some(p) => p,
            None => {
                return Err(Error::PathTraversal(clone_path(&e.path.components)));
            },
        };
        if p.len() == 0 {
            return Ok(());
        }
        let ghost pd = p.deep_view();
        let last: usize = p.len() - 1;
        let parent = prefix_vec(&p, last);
        proof {
            assert(pd[last as int] == p@[last as int]@);
            assert(parent.deep_view() =~= pd.drop_last());
        }
        let marker = opaque_marker_vec();
        if bytes_eq(&p[last], &marker) {
            self.remove_under(&parent, true);
            self.ensure_parents(&p);
            proof {
                assert(pd.last() == opaque_marker());
            }
            return Ok(());
        }
        let is_wh = p[last].len() >= 4 && p[last][0] == 46 && p[last][1] == 119 && p[last][2]
            == 104 && p[last][3] == 46;
        proof {
            if is_wh {
                assert(pd.last().subrange(0, 4) =~= wh_prefix());
            } else {
                if is_whiteout_name(pd.last()) {
                    assert(pd.last()[0] == wh_prefix()[0]);
                    assert(pd.last()[1] == wh_prefix()[1]);
                    assert(pd.last()[2] == wh_prefix()[2]);
                    assert(pd.last()[3] == wh_prefix()[3]);
                }
            }
            assert(is_wh == is_whiteout_name(pd.last()));
        }
        if is_wh {
            let victim = crate::util::subvec(&p[last], 4, p[last].len());
            let mut target = parent;
            let ghost parent_dv = target.deep_view();
            target.push(victim);
            proof {
                assert(target.deep_view() =~~= parent_dv.push(whiteout_victim(pd.last())));
            }
            self.remove_under(&target, false);
            return Ok(());
        }
        match &e.kind {
            EntryKind::File { data } => {
                self.ensure_parents(&p);
                let node = Node::File(clone_bytes(data));
                self.push_entry(p, node);
                Ok(())
            },
            EntryKind::Dir => {
                self.ensure_parents(&p);
                self.push_entry(p, Node::Dir);
                Ok(())
            },
            EntryKind::Symlink { target } => {
                match resolve_link(&parent, target) {
                    Some(t) => {
                        self.ensure_parents(&p);
                        self.push_entry(p, Node::Symlink(t));
                        Ok(())
                    },
                    None => Err(Error::PathTraversal(clone_path(&target.components))),
                }
            },
            EntryKind::Hardlink { target } => {
                match normalize(target) {
                    Some(t) => {
                        let data = match self.lookup(&t) {
                            Some(n) => match n {
                                Node::File(d) => Some(clone_bytes(d)),
                                _ => None,
                            },
                            None => None,
                        };
                        match data {
                            Some(d) => {
                                self.ensure_parents(&p);
                                self.push_entry(p, Node::File(d));
                                Ok(())
                            },
                            None => Err(
                                Error::FatalIo(
                                    String::from_str("hardlink target is not a present file"),
                                ),
                            ),
                        }
                    },
                    None => Err(Error::PathTraversal(clone_path(&target.components))),
                }
            },
        }
    }
}

/// One downloaded, digest-validated layer archive, already parsed into
/// entries in archive order.
pub struct Layer {
    pub entries: Vec<LayerEntry>,
}

/// The tree after the first `n` entries of a layer, or the failure that
/// stopped the fold.
pub open spec fn apply_upto(
    m: Map<Seq<Seq<u8>>, NodeV>,
    es: Seq<LayerEntry>,
    n: int,
) -> Result<Map<Seq<Seq<u8>>, NodeV>, RenderFail>
    decreases n,
{
    if n <= 0 {
        Ok(m)
    } else {
        match apply_upto(m, es, n - 1) {
            Result::Err(f) => Err(f),
            Result::Ok(mm) => apply_entry_model(mm, es[n - 1]),
        }
    }
}

proof fn lemma_upto_err(m: Map<Seq<Seq<u8>>, NodeV>, es: Seq<LayerEntry>, i: int, j: int)
    requires
        0 <= i <= j,
        apply_upto(m, es, i) is Err,
    ensures
        apply_upto(m, es, j) == apply_upto(m, es, i),
    decreases j - i,
{
    if i < j {
        lemma_upto_err(m, es, i, j - 1);
    }
}

/// The tree after the first `n` whole layers, or the failure that stopped
/// the fold.
pub open spec fn apply_layers_upto(
    m: Map<Seq<Seq<u8>>, NodeV>,
    ls: Seq<Layer>,
    n: int,
) -> Result<Map<Seq<Seq<u8>>, NodeV>, RenderFail>
    decreases n,
{
    if n <= 0 {
        Ok(m)
    } else {
        match apply_layers_upto(m, ls, n - 1) {
            Result::Err(f) => Err(f),
            Result::Ok(mm) => apply_upto(mm, ls[n - 1].entries@, ls[n - 1].entries@.len() as int),
        }
    }
}

proof fn lemma_layers_upto_err(m: Map<Seq<Seq<u8>>, NodeV>, ls: Seq<Layer>, i: int, j: int)
    requires
        0 <= i <= j,
        apply_layers_upto(m, ls, i) is Err,
    ensures
        apply_layers_upto(m, ls, j) == apply_layers_upto(m, ls, i),
    decreases j - i,
{
    if i < j {
        lemma_layers_upto_err(m, ls, i, j - 1);
    }
}

/// Whiteout law: applying a `.wh.<name>` marker entry leaves nothing at or
/// below `<name>` in the directory that holds the marker, whatever the
/// earlier layers put there.
pub proof fn lemma_whiteout_removes(
    m: Map<Seq<Seq<u8>>, NodeV>,
    e: LayerEntry,
    p: Seq<Seq<u8>>,
    k: Seq<Seq<u8>>,
)
    requires
        normalize_spec(e.path) == Some(p),
        p.len() > 0,
        is_whiteout_name(p.last()),
        p.last() != opaque_marker(),
        under_eq(k, p.drop_last().push(whiteout_victim(p.last()))),
    ensures
        apply_entry_model(m, e) matches Ok(m1) && !m1.dom().contains(k),
{
}

/// Opaque law: applying a `.wh..wh..opq` marker inside directory `d`
/// removes everything strictly below `d`, retains `d` itself, and does not
/// touch anything outside `d`.
pub proof fn lemma_opaque_resets(
    m: Map<Seq<Seq<u8>>, NodeV>,
    e: LayerEntry,
    p: Seq<Seq<u8>>,
    k: Seq<Seq<u8>>,
)
    requires
        normalize_spec(e.path) == Some(p),
        p.len() > 0,
        p.last() == opaque_marker(),
    ensures
        strictly_under(k, p.drop_last()) ==> (apply_entry_model(m, e) matches Ok(m1)
            && !m1.dom().contains(k)),
        m.dom().contains(p.drop_last()) ==> (apply_entry_model(m, e) matches Ok(m1)
            && m1.dom().contains(p.drop_last()) && m1[p.drop_last()] == m[p.drop_last()]),
        !under_eq(k, p.drop_last()) && m.dom().contains(k) ==> (apply_entry_model(m, e) matches Ok(
            m1,
        ) && m1.dom().contains(k) && m1[k] == m[k]),
{
    let parent = p.drop_last();
    if strictly_under(k, p.drop_last()) {
        assert(!(is_path_prefix(k, p) && 1 <= k.len() < p.len())) by {
            if is_path_prefix(k, p) && k.len() < p.len() {
                assert(k == p.subrange(0, k.len() as int));
                assert(parent == p.subrange(0, parent.len() as int));
                assert(k.len() > parent.len());
            }
        }
    }
    if !under_eq(k, parent) && m.dom().contains(k) {
        assert(!strictly_under(k, parent));
    }
}

/// Path-safety law: an entry whose target path is absolute or climbs out
/// of the destination root is rejected as a traversal, before anything is
/// written.
pub proof fn lemma_traversal_rejected(m: Map<Seq<Seq<u8>>, NodeV>, e: LayerEntry)
    requires
        normalize_spec(e.path) is None,
    ensures
        apply_entry_model(m, e) == Err::<Map<Seq<Seq<u8>>, NodeV>, RenderFail>(
            RenderFail::Traversal,
        ),
{
}

/// Does this library error stand for that failure of the fold?
pub open spec fn fail_matches(e: Error, f: RenderFail) -> bool {
    match f {
        RenderFail::Traversal => e is PathTraversal,
        RenderFail::LinkTarget => e is FatalIo,
    }
}

impl Fs {
    /// Apply one layer's entries in archive order.
    ///
    /// On failure the tree keeps everything the entries before the
    /// offending one wrote: there is no rollback.
    pub fn apply_layer(&mut self, layer: &Vec<LayerEntry>) -> (r: Result<(), Error>)
        ensures
            (r is Ok) == (apply_upto(old(self)@, layer@, layer@.len() as int) is Ok),
            apply_upto(old(self)@, layer@, layer@.len() as int) matches Ok(m) ==> final(self)@
                == m,
            apply_upto(old(self)@, layer@, layer@.len() as int) matches Err(f) ==> (r matches Err(
                e,
            ) && fail_matches(e, f)),
            r is Err ==> exists|k: int|
                0 <= k < layer@.len() && apply_upto(old(self)@, layer@, k) == Ok::<
                    Map<Seq<Seq<u8>>, NodeV>,
                    RenderFail,
                >(final(self)@) && apply_entry_model(final(self)@, layer@[k]) is Err,
    {
        let ghost m0 = self@;
        let n: usize = layer.len();
        let mut i: usize = 0;
        while i < n
            invariant
                0 <= i <= n == layer@.len(),
                m0 == old(self)@,
                apply_upto(m0, layer@, i as int) == Ok::<Map<Seq<Seq<u8>>, NodeV>, RenderFail>(
                    self@,
                ),
            decreases n - i,
        {
            let ghost m_pre = self@;
            let step = self.apply_entry(&layer[i]);
            match step {
                Ok(()) => {},
                Err(e) => {
                    proof {
                        assert(apply_upto(m0, layer@, i + 1) is Err);
                        lemma_upto_err(m0, layer@, i + 1, layer@.len() as int);
                    }
                    return Err(e);
                },
            }
            i = i + 1;
        }
        Ok(())
    }
}

/// Apply every layer, bottom to top, onto the destination tree.
///
/// Succeeds exactly when every entry of every layer is admissible and
/// applicable; the first offending entry stops the whole unpack with its
/// error, and the tree keeps what was already written.
pub fn unpack(fs: &mut Fs, layers: &Vec<Layer>) -> (r: Result<(), Error>)
    ensures
        (r is Ok) == (apply_layers_upto(old(fs)@, layers@, layers@.len() as int) is Ok),
        apply_layers_upto(old(fs)@, layers@, layers@.len() as int) matches Ok(m) ==> final(fs)@
            == m,
        apply_layers_upto(old(fs)@, layers@, layers@.len() as int) matches Err(f) ==> (r
            matches Err(e) && fail_matches(e, f)),
        r is Err ==> exists|j: int, k: int, mj: Map<Seq<Seq<u8>>, NodeV>|
            0 <= j < layers@.len() && apply_layers_upto(old(fs)@, layers@, j) == Ok::<
                Map<Seq<Seq<u8>>, NodeV>,
                RenderFail,
            >(mj) && 0 <= k < layers@[j].entries@.len() && apply_upto(
                mj,
                layers@[j].entries@,
                k,
            ) == Ok::<Map<Seq<Seq<u8>>, NodeV>, RenderFail>(final(fs)@) && apply_entry_model(
                final(fs)@,
                layers@[j].entries@[k],
            ) is Err,
    {
    let ghost m0 = fs@;
    let n: usize = layers.len();
    let mut i: usize = 0;
    while i < n
        invariant
            0 <= i <= n == layers@.len(),
            m0 == old(fs)@,
            apply_layers_upto(m0, layers@, i as int) == Ok::<Map<Seq<Seq<u8>>, NodeV>, RenderFail>(
                fs@,
            ),
        decreases n - i,
    {
        let ghost prev = fs@;
        let step = fs.apply_layer(&layers[i].entries);
        match step {
            Ok(()) => {},
            Err(e) => {
                proof {
                    assert(apply_layers_upto(m0, layers@, i + 1) is Err);
                    lemma_layers_upto_err(m0, layers@, i + 1, layers@.len() as int);
                    let k = choose|k: int|
                        0 <= k < layers@[i as int].entries@.len() && apply_upto(
                            prev,
                            layers@[i as int].entries@,
                            k,
                        ) == Ok::<Map<Seq<Seq<u8>>, NodeV>, RenderFail>(fs@) && apply_entry_model(
                            fs@,
                            layers@[i as int].entries@[k],
                        ) is Err;
                    assert(0 <= i < layers@.len() && apply_layers_upto(m0, layers@, i as int)
                        == Ok::<Map<Seq<Seq<u8>>, NodeV>, RenderFail>(prev) && 0 <= k < layers@[
                        i as int].entries@.len() && apply_upto(prev, layers@[i as int].entries@, k)
                        == Ok::<Map<Seq<Seq<u8>>, NodeV>, RenderFail>(fs@) && apply_entry_model(
                        fs@,
                        layers@[i as int].entries@[k],
                    ) is Err);
                }
                return Err(e);
            },
        }
        i = i + 1;
    }
    Ok(())
}

} // verus!
