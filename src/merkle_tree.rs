//! Leaves, tree vertices, the builder, the validator and the corruptor.

use crate::digest::{sha256_hex, sha256_hex_of, DIGEST_LEN, MAX_TEXT_LEN};
use crate::model::{
    build, bottom, bottoms, carry, combined, corrupted, fold_levels, lemma_built_tree_is_valid,
    lemma_first_leaf_sized, next_level, pair, recomputed, root_digest, sized, tamper_text,
    tree_valid, valid, with_first_leaf, Tree,
};
use vstd::prelude::*;

verus! {

/// One block of content.
pub struct Leaf {
    info: String,
}

impl Leaf {
    #[verifier::type_invariant]
    spec fn inv(self) -> bool {
        self.info@.len() < MAX_TEXT_LEN as int
    }
}

impl View for Leaf {
    type V = Seq<char>;

    closed spec fn view(&self) -> Seq<char> {
        self.info@
    }
}

impl Leaf {
    /// A leaf over `content`.
    pub fn new(content: String) -> (r: Leaf)
        requires
            content@.len() < MAX_TEXT_LEN as int,
        ensures
            r@ == content@,
    {
        Leaf { info: content }
    }

    /// The content.
    pub fn get_info(&self) -> (r: &String)
        ensures
            r@ == self@,
    {
        &self.info
    }

    /// Replaces the content; nothing that holds this leaf is told.
    pub fn set_info(&mut self, new_info: String)
        requires
            new_info@.len() < MAX_TEXT_LEN as int,
        ensures
            final(self)@ == new_info@,
    {
        self.info = new_info;
    }

    /// The digest of the current content.
    pub fn digest(&self) -> (r: String)
        ensures
            r@ == sha256_hex(self@),
            r@.len() == DIGEST_LEN,
    {
        proof {
            use_type_invariant(self);
        }
        sha256_hex_of(self.info.as_str())
    }
}

/// A tree vertex: one of four shapes, each with its stored digest.
enum Node {
    Bottom { val: String, leaf: Box<Leaf> },
    Pair { val: String, left: Box<Node>, right: Box<Node> },
    Carry { val: String, left: Box<Node> },
    Bare { val: String },
}

spec fn node_tree(n: Node) -> Tree
    decreases n,
{
    match n {
        Node::Bottom { val, leaf } => Tree::Bottom { digest: val@, content: leaf@ },
        Node::Pair { val, left, right } => Tree::Pair {
            digest: val@,
            left: Box::new(node_tree(*left)),
            right: Box::new(node_tree(*right)),
        },
        Node::Carry { val, left } => Tree::Carry { digest: val@, left: Box::new(node_tree(*left)) },
        Node::Bare { val } => Tree::Bare { digest: val@ },
    }
}

impl View for Node {
    type V = Tree;

    closed spec fn view(&self) -> Tree {
        node_tree(*self)
    }
}

spec fn trees(ns: Seq<Node>) -> Seq<Tree> {
    ns.map_values(|n: Node| n@)
}

/// The contents of a sequence of leaves, in order.
pub open spec fn contents_of(leaves: Seq<Box<Leaf>>) -> Seq<Seq<char>> {
    leaves.map_values(|l: Box<Leaf>| l@)
}

/// Digest of two digests, left one first.
fn digest_of_pair(a: &String, b: &String) -> (r: String)
    requires
        a@.len() == DIGEST_LEN,
        b@.len() == DIGEST_LEN,
    ensures
        r@ == combined(a@, b@),
        r@.len() == DIGEST_LEN,
{
    let input = a.clone().concat(b.as_str());
    sha256_hex_of(input.as_str())
}

impl Node {
    /// The stored digest.
    fn hash(&self) -> (r: &String)
        ensures
            r@ == self@.digest(),
    {
        match self {
            Node::Bottom { val, .. } => val,
            Node::Pair { val, .. } => val,
            Node::Carry { val, .. } => val,
            Node::Bare { val } => val,
        }
    }

    /// The digest recomputed from the leaf, or from the children's stored digests.
    fn compute_hash(&self) -> (r: String)
        requires
            sized(self@),
        ensures
            r@ == recomputed(self@),
    {
        match self {
            Node::Bottom { leaf, .. } => leaf.digest(),
            Node::Pair { left, right, .. } => {
                proof {
                    assert(sized(left@) && sized(right@));
                }
                digest_of_pair(left.hash(), right.hash())
            },
            Node::Carry { left, .. } => {
                proof {
                    assert(sized(left@));
                }
                digest_of_pair(left.hash(), left.hash())
            },
            Node::Bare { .. } => {
                proof {
                    reveal_strlit("");
                }
                let r = sha256_hex_of("");
                assert(""@ =~= Seq::<char>::empty());
                r
            },
        }
    }

    /// Children first, then this vertex's own digest.
    fn validate(&self) -> (r: bool)
        requires
            sized(self@),
        ensures
            r == valid(self@),
        decreases self,
    {
        match self {
            Node::Bottom { val, .. } => self.compute_hash() == *val,
            Node::Pair { val, left, right } => {
                if left.validate() && right.validate() {
                    self.compute_hash() == *val
                } else {
                    false
                }
            },
            Node::Carry { val, left } => {
                if left.validate() {
                    self.compute_hash() == *val
                } else {
                    false
                }
            },
            Node::Bare { .. } => true,
        }
    }

    /// Goes left wherever possible and overwrites the content of the leaf it
    /// reaches; no digest changes.
    fn corrupt_leaf(&mut self)
        ensures
            final(self)@ == with_first_leaf(old(self)@, tamper_text()),
        decreases old(self)@,
    {
        match self {
            Node::Bottom { leaf, .. } => {
                proof {
                    reveal_strlit("You were hacked.");
                }
                leaf.set_info("You were hacked.".to_owned());
            },
            Node::Pair { left, .. } => left.corrupt_leaf(),
            Node::Carry { left, .. } => left.corrupt_leaf(),
            Node::Bare { .. } => {},
        }
    }
}

/// The parent of a full pair: `a` on the left, `b` on the right.
fn join_pair(a: Node, b: Node) -> (p: Node)
    requires
        sized(a@),
        sized(b@),
    ensures
        p@ == pair(a@, b@),
        sized(p@),
{
    let val = digest_of_pair(a.hash(), b.hash());
    Node::Pair { val, left: Box::new(a), right: Box::new(b) }
}

/// The parent of a lone vertex, whose digest is combined with itself.
fn join_carry(a: Node) -> (p: Node)
    requires
        sized(a@),
    ensures
        p@ == carry(a@),
        sized(p@),
{
    let val = digest_of_pair(a.hash(), a.hash());
    Node::Carry { val, left: Box::new(a) }
}

/// The same vertices, last first.
fn reversed(v: Vec<Node>) -> (r: Vec<Node>)
    ensures
        r@.len() == v@.len(),
        forall|j: int| 0 <= j < v@.len() ==> #[trigger] r@[j] == v@[v@.len() - 1 - j],
{
    let ghost orig = v@;
    let mut rest = v;
    let mut r: Vec<Node> = Vec::new();
    while rest.len() > 0
        invariant
            rest.len() + r.len() == orig.len(),
            forall|j: int| 0 <= j < rest.len() ==> #[trigger] rest@[j] == orig[j],
            forall|j: int| 0 <= j < r.len() ==> #[trigger] r@[j] == orig[orig.len() - 1 - j],
        decreases rest.len(),
    {
        let n = rest.pop().unwrap();
        r.push(n);
    }
    r
}

/// Every vertex of the level has sized digests.
spec fn level_sized(ns: Seq<Node>) -> bool {
    forall|i: int| 0 <= i < ns.len() ==> sized(#[trigger] ns[i]@)
}

/// One vertex over each leaf, in order.
fn bottom_level(leaves: Vec<Box<Leaf>>) -> (level: Vec<Node>)
    ensures
        trees(level@) == bottoms(contents_of(leaves@)),
        level_sized(level@),
{
    let ghost cs = contents_of(leaves@);
    let mut rest = leaves;
    let mut rev: Vec<Node> = Vec::new();
    while rest.len() > 0
        invariant
            rest.len() + rev.len() == cs.len(),
            forall|j: int| 0 <= j < rest.len() ==> #[trigger] rest@[j]@ == cs[j],
            forall|j: int|
                0 <= j < rev.len() ==> #[trigger] rev@[j]@ == bottom(cs[cs.len() - 1 - j]),
            level_sized(rev@),
        decreases rest.len(),
    {
        let leaf = rest.pop().unwrap();
        proof {
            use_type_invariant(&*leaf);
        }
        let val = leaf.digest();
        rev.push(Node::Bottom { val, leaf });
    }
    let level = reversed(rev);
    assert(trees(level@) =~= bottoms(cs)) by {
        assert forall|j: int| 0 <= j < cs.len() implies #[trigger] trees(level@)[j] == bottoms(
            cs,
        )[j] by {
            assert(level@[j] == rev@[cs.len() - 1 - j]);
        }
    }
    assert forall|i: int| 0 <= i < level@.len() implies sized(#[trigger] level@[i]@) by {
        assert(level@[i] == rev@[cs.len() - 1 - i]);
    }
    level
}

/// The level above `level`: consecutive pairs joined left to right, a lone
/// last vertex carried.
fn combine_level(level: Vec<Node>) -> (up: Vec<Node>)
    requires
        level_sized(level@),
    ensures
        trees(up@) == next_level(trees(level@)),
        level_sized(up@),
{
    let ghost ts = trees(level@);
    let n = level.len();
    let rest0 = reversed(level);
    let mut rest = rest0;
    let mut up: Vec<Node> = Vec::new();
    while rest.len() >= 2
        invariant
            n == ts.len(),
            rest.len() + 2 * up.len() == n,
            forall|j: int| 0 <= j < rest.len() ==> #[trigger] rest@[j]@ == ts[n - 1 - j],
            level_sized(rest@),
            forall|k: int| 0 <= k < up.len() ==> #[trigger] up@[k]@ == pair(ts[2 * k], ts[2 * k + 1]),
            level_sized(up@),
        decreases rest.len(),
    {
        let a = rest.pop().unwrap();
        let b = rest.pop().unwrap();
        up.push(join_pair(a, b));
    }
    if rest.len() == 1 {
        let a = rest.pop().unwrap();
        up.push(join_carry(a));
    }
    assert(trees(up@) =~= next_level(ts));
    up
}

/// A tree over an ordered sequence of leaves.
pub struct MerkleTree {
    head: Option<Box<Node>>,
}

impl MerkleTree {
    #[verifier::type_invariant]
    spec fn inv(self) -> bool {
        match self.head {
            Some(n) => sized(n@),
            None => true,
        }
    }
}

impl View for MerkleTree {
    type V = Option<Tree>;

    closed spec fn view(&self) -> Option<Tree> {
        match self.head {
            Some(n) => Some(n@),
            None => None,
        }
    }
}

impl MerkleTree {
    /// Builds the tree bottom-up, level by level, in the leaves' order. No
    /// leaves give the empty tree.
    pub fn new(leaf_v: Vec<Box<Leaf>>) -> (r: MerkleTree)
        ensures
            r@ == build(contents_of(leaf_v@)),
            tree_valid(r@),
    {
        let ghost cs = contents_of(leaf_v@);
        proof {
            lemma_built_tree_is_valid(cs);
        }
        let mut level = bottom_level(leaf_v);
        if level.len() == 0 {
            return MerkleTree { head: None };
        }
        while level.len() > 1
            invariant
                level.len() >= 1,
                cs.len() >= 1,
                fold_levels(trees(level@)) == fold_levels(bottoms(cs)),
                level_sized(level@),
            decreases level.len(),
        {
            level = combine_level(level);
        }
        let root = level.pop().unwrap();
        MerkleTree { head: Some(Box::new(root)) }
    }

    /// Whether every stored digest matches its recomputation. Reads only.
    pub fn validate(&self) -> (r: bool)
        ensures
            r == tree_valid(self@),
    {
        proof {
            use_type_invariant(self);
        }
        match &self.head {
            Some(n) => n.validate(),
            None => true,
        }
    }

    /// Overwrites the content of the leftmost leaf, leaving every digest as
    /// it was.
    pub fn corrupt_tree(&mut self)
        ensures
            final(self)@ == corrupted(old(self)@),
    {
        proof {
            use_type_invariant(&*self);
        }
        let mut head = None;
        std::mem::swap(&mut head, &mut self.head);
        match &mut head {
            Some(n) => {
                proof {
                    reveal_strlit("You were hacked.");
                    lemma_first_leaf_sized(n@, tamper_text());
                }
                n.corrupt_leaf();
            },
            None => {},
        }
        self.head = head;
    }

    /// The digest stored at the root; none for the empty tree.
    pub fn root_hash(&self) -> (r: Option<String>)
        ensures
            match r {
                Some(s) => root_digest(self@) == Some(s@),
                None => root_digest(self@) is None,
            },
    {
        match &self.head {
            Some(n) => Some(n.hash().clone()),
            None => None,
        }
    }
}

} // verus!
