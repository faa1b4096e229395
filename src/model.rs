//! The mathematical model of a hash tree: its shapes, what makes it valid,
//! how a sequence of leaf contents is folded into one, and how the corruptor
//! changes it.

use crate::digest::{sha256_hex, DIGEST_LEN, MAX_TEXT_LEN};
use vstd::prelude::*;

verus! {

/// A tree vertex as the proofs see it. Digests and contents are text.
pub enum Tree {
    /// Bottom level: wraps one leaf's content.
    Bottom { digest: Seq<char>, content: Seq<char> },
    /// Internal vertex over a full pair.
    Pair { digest: Seq<char>, left: Box<Tree>, right: Box<Tree> },
    /// Internal vertex over a lone trailing vertex of its level.
    Carry { digest: Seq<char>, left: Box<Tree> },
    /// Neither children nor leaf; the builder never makes one.
    Bare { digest: Seq<char> },
}

impl Tree {
    /// The digest stored at this vertex.
    pub open spec fn digest(self) -> Seq<char> {
        match self {
            Tree::Bottom { digest, .. } => digest,
            Tree::Pair { digest, .. } => digest,
            Tree::Carry { digest, .. } => digest,
            Tree::Bare { digest } => digest,
        }
    }
}

/// Digest of two digests, left one first.
pub open spec fn combined(a: Seq<char>, b: Seq<char>) -> Seq<char> {
    sha256_hex(a + b)
}

/// The digest a vertex should hold, recomputed from its leaf or its children.
pub open spec fn recomputed(t: Tree) -> Seq<char> {
    match t {
        Tree::Bottom { content, .. } => sha256_hex(content),
        Tree::Pair { left, right, .. } => combined(left.digest(), right.digest()),
        Tree::Carry { left, .. } => combined(left.digest(), left.digest()),
        Tree::Bare { .. } => sha256_hex(Seq::empty()),
    }
}

/// Every stored digest matches its recomputation; a bare vertex is valid.
pub open spec fn valid(t: Tree) -> bool
    decreases t,
{
    match t {
        Tree::Bottom { .. } => recomputed(t) == t.digest(),
        Tree::Pair { left, right, .. } => valid(*left) && valid(*right) && recomputed(t)
            == t.digest(),
        Tree::Carry { left, .. } => valid(*left) && recomputed(t) == t.digest(),
        Tree::Bare { .. } => true,
    }
}

/// A tree as held by a `MerkleTree`: absent for an empty input, which is valid.
pub open spec fn tree_valid(o: Option<Tree>) -> bool {
    match o {
        Some(t) => valid(t),
        None => true,
    }
}

/// The root digest, if there is a root.
pub open spec fn root_digest(o: Option<Tree>) -> Option<Seq<char>> {
    match o {
        Some(t) => Some(t.digest()),
        None => None,
    }
}

/// The leaf contents, left to right.
pub open spec fn leaves(t: Tree) -> Seq<Seq<char>>
    decreases t,
{
    match t {
        Tree::Bottom { content, .. } => seq![content],
        Tree::Pair { left, right, .. } => leaves(*left) + leaves(*right),
        Tree::Carry { left, .. } => leaves(*left),
        Tree::Bare { .. } => Seq::empty(),
    }
}

/// No vertex is bare.
pub open spec fn complete(t: Tree) -> bool
    decreases t,
{
    match t {
        Tree::Bottom { .. } => true,
        Tree::Pair { left, right, .. } => complete(*left) && complete(*right),
        Tree::Carry { left, .. } => complete(*left),
        Tree::Bare { .. } => false,
    }
}

/// Every digest has the digest length, and every content can be hashed.
pub open spec fn sized(t: Tree) -> bool
    decreases t,
{
    &&& t.digest().len() == DIGEST_LEN
    &&& match t {
        Tree::Bottom { content, .. } => content.len() < MAX_TEXT_LEN as int,
        Tree::Pair { left, right, .. } => sized(*left) && sized(*right),
        Tree::Carry { left, .. } => sized(*left),
        Tree::Bare { .. } => true,
    }
}

/// The bottom-level vertex over one content.
pub open spec fn bottom(c: Seq<char>) -> Tree {
    Tree::Bottom { digest: sha256_hex(c), content: c }
}

/// The parent of a full pair.
pub open spec fn pair(a: Tree, b: Tree) -> Tree {
    Tree::Pair { digest: combined(a.digest(), b.digest()), left: Box::new(a), right: Box::new(b) }
}

/// The parent of a lone vertex: its digest is combined with itself.
pub open spec fn carry(a: Tree) -> Tree {
    Tree::Carry { digest: combined(a.digest(), a.digest()), left: Box::new(a) }
}

/// The `i`-th parent of a level: vertices `2i` and `2i + 1` paired, or the
/// last vertex carried when it has no partner.
pub open spec fn parent_at(ts: Seq<Tree>, i: int) -> Tree {
    if 2 * i + 1 < ts.len() {
        pair(ts[2 * i], ts[2 * i + 1])
    } else {
        carry(ts[2 * i])
    }
}

/// The level above `ts`, in order.
pub open spec fn next_level(ts: Seq<Tree>) -> Seq<Tree> {
    Seq::new(((ts.len() + 1) / 2) as nat, |i: int| parent_at(ts, i))
}

/// Combine levels until one vertex is left.
pub open spec fn fold_levels(ts: Seq<Tree>) -> Tree
    recommends
        ts.len() >= 1,
    decreases ts.len(),
{
    if ts.len() <= 1 {
        ts[0]
    } else {
        fold_levels(next_level(ts))
    }
}

/// The bottom level over a sequence of contents.
pub open spec fn bottoms(cs: Seq<Seq<char>>) -> Seq<Tree> {
    cs.map_values(|c: Seq<char>| bottom(c))
}

/// The tree built from a sequence of leaf contents; none for no leaves.
pub open spec fn build(cs: Seq<Seq<char>>) -> Option<Tree> {
    if cs.len() == 0 {
        None
    } else {
        Some(fold_levels(bottoms(cs)))
    }
}

/// The text the corruptor writes into a leaf.
pub open spec fn tamper_text() -> Seq<char> {
    "You were hacked."@
}

/// `t` with the content of the leaf reached by going left wherever possible
/// replaced by `c`; no digest changes.
pub open spec fn with_first_leaf(t: Tree, c: Seq<char>) -> Tree
    decreases t,
{
    match t {
        Tree::Bottom { digest, .. } => Tree::Bottom { digest, content: c },
        Tree::Pair { digest, left, right } => Tree::Pair {
            digest,
            left: Box::new(with_first_leaf(*left, c)),
            right,
        },
        Tree::Carry { digest, left } => Tree::Carry {
            digest,
            left: Box::new(with_first_leaf(*left, c)),
        },
        Tree::Bare { .. } => t,
    }
}

/// What the corruptor makes of a tree.
pub open spec fn corrupted(o: Option<Tree>) -> Option<Tree> {
    match o {
        Some(t) => Some(with_first_leaf(t, tamper_text())),
        None => None,
    }
}

/// The leaf contents of a level, left to right.
spec fn level_leaves(ts: Seq<Tree>) -> Seq<Seq<char>>
    decreases ts.len(),
{
    if ts.len() == 0 {
        Seq::empty()
    } else {
        level_leaves(ts.drop_last()) + leaves(ts.last())
    }
}

proof fn lemma_next_level_drop_last(ts: Seq<Tree>)
    requires
        ts.len() >= 1,
    ensures
        ts.len() % 2 == 0 ==> next_level(ts).drop_last() =~= next_level(ts.subrange(0, ts.len() - 2))
            && next_level(ts).last() == pair(ts[ts.len() - 2], ts[ts.len() - 1]),
        ts.len() % 2 == 1 ==> next_level(ts).drop_last() =~= next_level(ts.subrange(0, ts.len() - 1))
            && next_level(ts).last() == carry(ts[ts.len() - 1]),
{
}

proof fn lemma_next_level_leaves(ts: Seq<Tree>)
    ensures
        level_leaves(next_level(ts)) == level_leaves(ts),
    decreases ts.len(),
{
    let n = ts.len();
    if n == 0 {
        assert(next_level(ts) =~= Seq::<Tree>::empty());
    } else if n % 2 == 0 {
        let front = ts.subrange(0, n - 2);
        lemma_next_level_drop_last(ts);
        lemma_next_level_leaves(front);
        assert(ts.drop_last().drop_last() =~= front);
        assert(ts.drop_last().last() == ts[n - 2]);
        assert(level_leaves(ts.drop_last()) == level_leaves(front) + leaves(ts[n - 2]));
        assert(level_leaves(ts) == level_leaves(front) + leaves(ts[n - 2]) + leaves(ts[n - 1]));
        let up = next_level(ts);
        assert(leaves(up.last()) == leaves(ts[n - 2]) + leaves(ts[n - 1]));
        assert(level_leaves(up) == level_leaves(up.drop_last()) + leaves(up.last()));
        assert(level_leaves(ts) =~= level_leaves(up));
    } else {
        let front = ts.subrange(0, n - 1);
        lemma_next_level_drop_last(ts);
        lemma_next_level_leaves(front);
        assert(ts.drop_last() =~= front);
    }
}

proof fn lemma_fold_leaves(ts: Seq<Tree>)
    requires
        ts.len() >= 1,
    ensures
        leaves(fold_levels(ts)) == level_leaves(ts),
    decreases ts.len(),
{
    if ts.len() == 1 {
        assert(ts.drop_last() =~= Seq::<Tree>::empty());
        assert(level_leaves(ts.drop_last()) == Seq::<Seq<char>>::empty());
        assert(level_leaves(ts) =~= leaves(ts[0]));
    } else {
        lemma_next_level_leaves(ts);
        lemma_fold_leaves(next_level(ts));
    }
}

proof fn lemma_bottoms_leaves(cs: Seq<Seq<char>>)
    ensures
        level_leaves(bottoms(cs)) == cs,
    decreases cs.len(),
{
    if cs.len() > 0 {
        lemma_bottoms_leaves(cs.drop_last());
        assert(bottoms(cs).drop_last() =~= bottoms(cs.drop_last()));
        assert(cs =~= cs.drop_last() + seq![cs.last()]);
    } else {
        assert(bottoms(cs) =~= Seq::<Tree>::empty());
    }
}

/// Every vertex of the level is valid and complete.
spec fn level_sound(ts: Seq<Tree>) -> bool {
    forall|i: int| 0 <= i < ts.len() ==> valid(#[trigger] ts[i]) && complete(ts[i])
}

proof fn lemma_fold_sound(ts: Seq<Tree>)
    requires
        ts.len() >= 1,
        level_sound(ts),
    ensures
        valid(fold_levels(ts)),
        complete(fold_levels(ts)),
    decreases ts.len(),
{
    if ts.len() > 1 {
        let up = next_level(ts);
        assert forall|i: int| 0 <= i < up.len() implies valid(#[trigger] up[i]) && complete(up[i]) by {
            assert(2 * i < ts.len());
            assert(valid(ts[2 * i]) && complete(ts[2 * i]));
            if 2 * i + 1 < ts.len() {
                assert(valid(ts[2 * i + 1]) && complete(ts[2 * i + 1]));
            }
        }
        lemma_fold_sound(up);
    }
}

/// The leaves of a built tree are the contents it was built from, in order,
/// and it is valid and has no bare vertex.
pub proof fn lemma_build_shape(cs: Seq<Seq<char>>)
    requires
        cs.len() > 0,
    ensures
        build(cs) is Some,
        leaves(build(cs)->0) == cs,
        valid(build(cs)->0),
        complete(build(cs)->0),
{
    lemma_bottoms_leaves(cs);
    lemma_fold_leaves(bottoms(cs));
    assert forall|i: int| 0 <= i < bottoms(cs).len() implies valid(#[trigger] bottoms(cs)[i])
        && complete(bottoms(cs)[i]) by {}
    lemma_fold_sound(bottoms(cs));
}

/// Round-trip integrity: a tree is valid right after it is built, whatever
/// the contents, none included.
pub proof fn lemma_built_tree_is_valid(cs: Seq<Seq<char>>)
    ensures
        tree_valid(build(cs)),
{
    if cs.len() > 0 {
        lemma_build_shape(cs);
    }
}

/// Building from no contents gives the empty tree, and it is valid.
pub proof fn lemma_empty_tree_is_valid()
    ensures
        build(Seq::empty()) == None::<Tree>,
        tree_valid(build(Seq::empty())),
{
}

proof fn lemma_first_leaf(t: Tree, c: Seq<char>)
    requires
        complete(t),
    ensures
        leaves(t).len() >= 1,
        leaves(with_first_leaf(t, c)) == leaves(t).update(0, c),
        complete(with_first_leaf(t, c)),
        valid(t) && sha256_hex(c) != sha256_hex(leaves(t)[0]) ==> !valid(with_first_leaf(t, c)),
    decreases t,
{
    match t {
        Tree::Bottom { .. } => {
            assert(leaves(with_first_leaf(t, c)) =~= leaves(t).update(0, c));
        },
        Tree::Pair { left, right, .. } => {
            lemma_first_leaf(*left, c);
            assert(leaves(with_first_leaf(t, c)) =~= leaves(t).update(0, c));
            assert(leaves(t)[0] == leaves(*left)[0]);
        },
        Tree::Carry { left, .. } => {
            lemma_first_leaf(*left, c);
        },
        Tree::Bare { .. } => {},
    }
}

/// Tamper detection: once the corruptor has rewritten a leaf of a freshly
/// built tree, the tree is no longer valid, unless the new text has the
/// same digest as the content it replaced. Exactly the first leaf changed;
/// every other leaf keeps its content.
pub proof fn lemma_tampering_is_detected(cs: Seq<Seq<char>>)
    requires
        cs.len() > 0,
        sha256_hex(tamper_text()) != sha256_hex(cs[0]),
    ensures
        !tree_valid(corrupted(build(cs))),
        leaves(corrupted(build(cs))->0) == cs.update(0, tamper_text()),
{
    lemma_build_shape(cs);
    lemma_first_leaf(build(cs)->0, tamper_text());
}

/// A single leaf is the root itself: its digest is the content's digest,
/// with no combining level above it.
pub proof fn lemma_single_leaf_root(a: Seq<char>)
    ensures
        build(seq![a]) == Some(bottom(a)),
        root_digest(build(seq![a])) == Some(sha256_hex(a)),
{
    assert(bottoms(seq![a]) =~= seq![bottom(a)]);
}

/// Three leaves: the first two are paired, the third is combined with
/// itself, and the root combines those two parents, left first.
pub proof fn lemma_three_leaf_root(a: Seq<char>, b: Seq<char>, c: Seq<char>)
    ensures
        root_digest(build(seq![a, b, c])) == Some(
            combined(
                combined(sha256_hex(a), sha256_hex(b)),
                combined(sha256_hex(c), sha256_hex(c)),
            ),
        ),
{
    let ts = bottoms(seq![a, b, c]);
    assert(ts =~= seq![bottom(a), bottom(b), bottom(c)]);
    let up = next_level(ts);
    assert(up =~= seq![pair(bottom(a), bottom(b)), carry(bottom(c))]);
    let top = next_level(up);
    assert(top =~= seq![pair(up[0], up[1])]);
    assert(fold_levels(ts) == fold_levels(up));
    assert(fold_levels(up) == fold_levels(top));
}

/// Order sensitivity: two leaves with different digests give, in the two
/// orders, roots hashed from different texts; so the roots differ unless
/// the hash collides on exactly those two texts.
pub proof fn lemma_order_matters(a: Seq<char>, b: Seq<char>)
    requires
        sha256_hex(a) != sha256_hex(b),
        sha256_hex(a).len() == DIGEST_LEN,
        sha256_hex(b).len() == DIGEST_LEN,
        sha256_hex(sha256_hex(a) + sha256_hex(b)) == sha256_hex(sha256_hex(b) + sha256_hex(a))
            ==> sha256_hex(a) + sha256_hex(b) == sha256_hex(b) + sha256_hex(a),
    ensures
        root_digest(build(seq![a, b])) == Some(combined(sha256_hex(a), sha256_hex(b))),
        root_digest(build(seq![b, a])) == Some(combined(sha256_hex(b), sha256_hex(a))),
        sha256_hex(a) + sha256_hex(b) != sha256_hex(b) + sha256_hex(a),
        root_digest(build(seq![a, b])) != root_digest(build(seq![b, a])),
{
    let (ha, hb) = (sha256_hex(a), sha256_hex(b));
    assert(bottoms(seq![a, b]) =~= seq![bottom(a), bottom(b)]);
    assert(bottoms(seq![b, a]) =~= seq![bottom(b), bottom(a)]);
    assert(next_level(seq![bottom(a), bottom(b)]) =~= seq![pair(bottom(a), bottom(b))]);
    assert(next_level(seq![bottom(b), bottom(a)]) =~= seq![pair(bottom(b), bottom(a))]);
    assert(fold_levels(seq![pair(bottom(a), bottom(b))]) == pair(bottom(a), bottom(b)));
    assert(fold_levels(seq![pair(bottom(b), bottom(a))]) == pair(bottom(b), bottom(a)));
    assert(fold_levels(seq![bottom(a), bottom(b)]) == pair(bottom(a), bottom(b)));
    assert(fold_levels(seq![bottom(b), bottom(a)]) == pair(bottom(b), bottom(a)));
    assert((ha + hb).subrange(0, DIGEST_LEN as int) =~= ha);
    assert((hb + ha).subrange(0, DIGEST_LEN as int) =~= hb);
}

/// The corruptor keeps every digest and every length bound, given a short
/// enough replacement text.
pub proof fn lemma_first_leaf_sized(t: Tree, c: Seq<char>)
    requires
        sized(t),
        c.len() < MAX_TEXT_LEN as int,
    ensures
        sized(with_first_leaf(t, c)),
    decreases t,
{
    match t {
        Tree::Pair { left, .. } => lemma_first_leaf_sized(*left, c),
        Tree::Carry { left, .. } => lemma_first_leaf_sized(*left, c),
        _ => {},
    }
}

} // verus!
