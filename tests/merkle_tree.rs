use crypto::digest::Digest;
use crypto::sha2::Sha256;
use merkle::{Leaf, MerkleTree};

fn sha(s: &str) -> String {
    let mut h = Sha256::new();
    h.input_str(s);
    h.result_str()
}

fn join(a: &str, b: &str) -> String {
    sha(&format!("{}{}", a, b))
}

fn leaves(contents: &[&str]) -> Vec<Box<Leaf>> {
    contents.iter().map(|c| Box::new(Leaf::new(c.to_string()))).collect()
}

#[test]
fn leaf_digest_is_sha256_hex() {
    let leaf = Leaf::new("abc".to_string());
    assert_eq!(
        leaf.digest(),
        "ba7816bf8f01cfea414140de5dae2223b00361a396177a9cb410ff61f20015ad"
    );
    assert_eq!(leaf.get_info(), "abc");
}

#[test]
fn leaf_set_info_changes_digest() {
    let mut leaf = Leaf::new("abc".to_string());
    leaf.set_info("abd".to_string());
    assert_eq!(leaf.get_info(), "abd");
    assert_eq!(leaf.digest(), sha("abd"));
}

#[test]
fn empty_tree_is_valid() {
    let mut t = MerkleTree::new(Vec::new());
    assert!(t.validate());
    assert_eq!(t.root_hash(), None);
    t.corrupt_tree();
    assert!(t.validate());
}

#[test]
fn single_leaf_root_is_leaf_digest() {
    let t = MerkleTree::new(leaves(&["only"]));
    assert_eq!(t.root_hash(), Some(sha("only")));
    assert!(t.validate());
}

#[test]
fn three_leaves_duplicate_the_odd_one() {
    let t = MerkleTree::new(leaves(&["A", "B", "C"]));
    let left = join(&sha("A"), &sha("B"));
    let right = join(&sha("C"), &sha("C"));
    assert_eq!(t.root_hash(), Some(join(&left, &right)));
    assert!(t.validate());
}

#[test]
fn two_leaves_root_and_order() {
    let ab = MerkleTree::new(leaves(&["A", "B"]));
    let ba = MerkleTree::new(leaves(&["B", "A"]));
    assert_eq!(ab.root_hash(), Some(join(&sha("A"), &sha("B"))));
    assert_eq!(ba.root_hash(), Some(join(&sha("B"), &sha("A"))));
    assert_ne!(ab.root_hash(), ba.root_hash());
}

#[test]
fn four_leaves_balanced_root() {
    let t = MerkleTree::new(leaves(&["a", "b", "c", "d"]));
    let left = join(&sha("a"), &sha("b"));
    let right = join(&sha("c"), &sha("d"));
    assert_eq!(t.root_hash(), Some(join(&left, &right)));
}

#[test]
fn four_leaves_corruption_is_detected() {
    let mut t = MerkleTree::new(leaves(&["a", "b", "c", "d"]));
    let root = t.root_hash();
    assert!(t.validate());
    t.corrupt_tree();
    assert!(!t.validate());
    assert_eq!(t.root_hash(), root);
}

#[test]
fn five_leaves_build_valid_and_detect_corruption() {
    let mut t = MerkleTree::new(leaves(&["1", "2", "3", "4", "5"]));
    let l1 = join(&join(&sha("1"), &sha("2")), &join(&sha("3"), &sha("4")));
    let five = join(&sha("5"), &sha("5"));
    let r1 = join(&five, &five);
    assert_eq!(t.root_hash(), Some(join(&l1, &r1)));
    assert!(t.validate());
    t.corrupt_tree();
    assert!(!t.validate());
}

#[test]
fn single_leaf_corruption_is_detected() {
    let mut t = MerkleTree::new(leaves(&["only"]));
    t.corrupt_tree();
    assert!(!t.validate());
}

#[test]
fn validate_is_repeatable() {
    let mut t = MerkleTree::new(leaves(&["x", "y", "z"]));
    let root = t.root_hash();
    assert!(t.validate());
    assert!(t.validate());
    assert_eq!(t.root_hash(), root);
    t.corrupt_tree();
    assert!(!t.validate());
    assert!(!t.validate());
}

#[test]
fn corrupting_with_the_same_text_goes_unnoticed() {
    let mut t = MerkleTree::new(leaves(&["You were hacked.", "b"]));
    t.corrupt_tree();
    assert!(t.validate());
}

#[test]
fn empty_content_leaf() {
    let t = MerkleTree::new(leaves(&["", ""]));
    assert_eq!(
        t.root_hash(),
        Some(join(
            "e3b0c44298fc1c149afbf4c8996fb92427ae41e4649b934ca495991b7852b855",
            "e3b0c44298fc1c149afbf4c8996fb92427ae41e4649b934ca495991b7852b855"
        ))
    );
    assert!(t.validate());
}
