use privacy_pay::hash::{digest_eq, hash2, to_field_element, zero_digest};
use privacy_pay::instructions::add_commitment::add_commitment;
use privacy_pay::instructions::initialize::{genesis_root, initialize, try_initialize};
use privacy_pay::state::{path_indices, State, TreeFull, ROOT_HISTORY_SIZE, TREE_DEPTH};
use privacy_pay::zk_verifier::{verify_commitment, ErrorCode};

fn unhex(text: &str) -> [u8; 32] {
    let bytes = text.as_bytes();
    assert_eq!(bytes.len(), 64);
    let mut out = [0u8; 32];
    for i in 0..32 {
        let hi = (bytes[2 * i] as char).to_digit(16).unwrap() as u8;
        let lo = (bytes[2 * i + 1] as char).to_digit(16).unwrap() as u8;
        out[i] = hi * 16 + lo;
    }
    out
}

fn leaf(tag: u8) -> [u8; 32] {
    let mut out = [0u8; 32];
    out[0] = 0x0a;
    out[31] = tag;
    out
}

#[test]
fn hash2_is_sha256_with_three_bits_cleared() {
    let z = zero_digest();
    assert_eq!(z, [0u8; 32]);
    // SHA-256 of 64 zero bytes is f5a5fd42...; 0xf5 & 0x1f = 0x15.
    let level1 = hash2(&z, &z);
    assert_eq!(
        level1,
        unhex("15a5fd42d16a20302798ef6ed309979b43003d2320d9f0e8ea9831a92759fb4b")
    );
    let level2 = hash2(&level1, &level1);
    assert!(level2[0] <= 0x1f);
    assert_ne!(level2, level1);
}

#[test]
fn hash2_agrees_with_sha256_of_the_concatenation() {
    let a = leaf(1);
    let b = leaf(2);
    let mut both = Vec::new();
    both.extend_from_slice(&a);
    both.extend_from_slice(&b);
    let mut expected = anchor_lang::solana_program::hash::hash(&both).to_bytes();
    expected[0] &= 0x1f;
    assert_eq!(hash2(&a, &b), expected);
}

#[test]
fn to_field_element_clears_three_bits_of_the_first_byte() {
    let mut all = [0xffu8; 32];
    let cleared = to_field_element(all);
    all[0] = 0x1f;
    assert_eq!(cleared, all);
    assert_eq!(to_field_element(leaf(3)), leaf(3));
    let mut high = [0u8; 32];
    high[0] = 0xe0;
    assert_eq!(to_field_element(high), [0u8; 32]);
}

#[test]
fn hash2_depends_on_the_order_of_its_inputs() {
    let a = leaf(1);
    let b = leaf(2);
    assert_ne!(hash2(&a, &b), hash2(&b, &a));
    assert_eq!(hash2(&a, &b), hash2(&a, &b));
    assert_ne!(hash2(&a, &b), a);
    assert_ne!(hash2(&a, &b), b);
}

#[test]
fn digest_eq_compares_all_bytes() {
    let a = leaf(1);
    let mut b = leaf(1);
    assert!(digest_eq(&a, &b));
    b[17] = 1;
    assert!(!digest_eq(&a, &b));
}

#[test]
fn empty_tree_root_is_the_fold_of_zero_hashes() {
    let z0 = zero_digest();
    let z1 = hash2(&z0, &z0);
    let z2 = hash2(&z1, &z1);
    assert_eq!(State::new(0, 1).root(), z0);
    assert_eq!(State::new(1, 1).root(), z1);
    assert_eq!(State::new(2, 1).root(), z2);
}

#[test]
fn roots_of_a_depth_two_tree_after_each_insert() {
    let z0 = zero_digest();
    let z1 = hash2(&z0, &z0);
    let (c1, c2, c3, c4) = (leaf(1), leaf(2), leaf(3), leaf(4));
    let mut tree = State::new(2, 8);
    assert_eq!(tree.depth(), 2);
    assert_eq!(tree.next_index(), 0);

    let r1 = hash2(&hash2(&c1, &z0), &z1);
    assert_eq!(tree.insert(c1), Ok((r1, 0)));
    assert_eq!(tree.root(), r1);

    let r2 = hash2(&hash2(&c1, &c2), &z1);
    assert_eq!(tree.insert(c2), Ok((r2, 1)));

    let r3 = hash2(&hash2(&c1, &c2), &hash2(&c3, &z0));
    assert_eq!(tree.insert(c3), Ok((r3, 2)));

    let r4 = hash2(&hash2(&c1, &c2), &hash2(&c3, &c4));
    assert_eq!(tree.insert(c4), Ok((r4, 3)));
    assert_eq!(tree.root(), r4);
    assert_eq!(tree.next_index(), 4);
}

#[test]
fn insert_into_full_tree_fails_and_keeps_the_root() {
    let mut tree = State::new(2, 8);
    for tag in 1..=4u8 {
        assert!(tree.insert(leaf(tag)).is_ok());
    }
    let root = tree.root();
    let path = tree.path_for(3);
    assert_eq!(tree.insert(leaf(5)), Err(TreeFull));
    assert_eq!(tree.insert(leaf(6)), Err(TreeFull));
    assert_eq!(tree.root(), root);
    assert_eq!(tree.next_index(), 4);
    assert_eq!(tree.path_for(3), path);
    assert!(!tree.is_known_root(&hash2(&root, &leaf(5))));
}

#[test]
fn roots_are_numbers_below_the_scalar_field_order() {
    let order = privacy_pay::field::scalar_field_order_bytes();
    let mut tree = State::new(3, 2);
    assert!(privacy_pay::field::be_less_than(&tree.root(), &order));
    for tag in 0..8u8 {
        let mut c = [0xffu8; 32];
        c[31] = tag;
        let (root, _) = tree.insert(c).unwrap();
        assert!(root[0] <= 0x1f);
        assert!(privacy_pay::field::be_less_than(&root, &order));
    }
}

#[test]
fn tree_of_depth_zero_holds_one_leaf() {
    let mut tree = State::new(0, 2);
    assert_eq!(tree.insert(leaf(9)), Ok((leaf(9), 0)));
    assert_eq!(tree.insert(leaf(8)), Err(TreeFull));
    assert_eq!(tree.root(), leaf(9));
    assert_eq!(tree.path_for(0), Some(vec![]));
}

#[test]
fn root_is_the_same_with_and_without_queries_in_between() {
    let mut plain = State::new(5, 4);
    let mut queried = State::new(5, 4);
    for tag in 1..=20u8 {
        let c = leaf(tag);
        let _ = queried.root();
        let _ = queried.is_known_root(&c);
        let _ = queried.path_for(0);
        let _ = queried.next_index();
        let a = plain.insert(c);
        let b = queried.insert(c);
        assert_eq!(a, b);
        assert_eq!(plain.root(), queried.root());
    }
}

#[test]
fn history_keeps_the_last_roots_and_evicts_the_oldest() {
    let mut tree = State::new(4, 3);
    assert_eq!(tree.history_capacity(), 3);
    let r0 = tree.root();
    let (r1, _) = tree.insert(leaf(1)).unwrap();
    let (r2, _) = tree.insert(leaf(2)).unwrap();
    assert!(tree.is_known_root(&r0));
    assert!(tree.is_known_root(&r1));
    assert!(tree.is_known_root(&r2));
    let (r3, _) = tree.insert(leaf(3)).unwrap();
    assert!(!tree.is_known_root(&r0));
    assert!(tree.is_known_root(&r1));
    assert!(tree.is_known_root(&r2));
    assert!(tree.is_known_root(&r3));
    assert_eq!(tree.history(), vec![r1, r2, r3]);
    let (r4, _) = tree.insert(leaf(4)).unwrap();
    assert!(!tree.is_known_root(&r1));
    assert!(tree.is_known_root(&r4));
    assert!(!tree.is_known_root(&leaf(1)));
    assert_eq!(tree.history(), vec![r2, r3, r4]);
    assert_eq!(State::new(4, 3).history(), vec![State::new(4, 3).root()]);
    assert_eq!(State::new(4, 0).history(), Vec::<[u8; 32]>::new());
}

#[test]
fn without_history_only_the_current_root_is_known() {
    let mut tree = State::new(3, 0);
    let r0 = tree.root();
    assert!(tree.is_known_root(&r0));
    let (r1, _) = tree.insert(leaf(1)).unwrap();
    assert!(tree.is_known_root(&r1));
    assert!(!tree.is_known_root(&r0));
}

#[test]
fn path_of_each_leaf_leads_to_the_root() {
    let mut tree = State::new(3, 2);
    for tag in 1..=5u8 {
        tree.insert(leaf(tag)).unwrap();
    }
    let root = tree.root();
    for index in 0..5u64 {
        let path = tree.path_for(index).unwrap();
        assert_eq!(path.len(), 3);
        let sides = path_indices(index, 3);
        let c = leaf(index as u8 + 1);
        assert_eq!(verify_commitment(&c, &root, &path, &sides), Ok(()));
        assert_eq!(
            verify_commitment(&leaf(77), &root, &path, &sides),
            Err(ErrorCode::RootMismatch)
        );
    }
    assert_eq!(tree.path_for(5), None);
    assert_eq!(tree.path_for(8), None);
    assert_eq!(tree.path_for(u64::MAX), None);
}

#[test]
fn path_for_gives_the_siblings_lowest_first() {
    let z0 = zero_digest();
    let z1 = hash2(&z0, &z0);
    let (c1, c2, c3) = (leaf(1), leaf(2), leaf(3));
    let mut tree = State::new(2, 2);
    tree.insert(c1).unwrap();
    tree.insert(c2).unwrap();
    tree.insert(c3).unwrap();
    assert_eq!(tree.path_for(0), Some(vec![c2, hash2(&c3, &z0)]));
    assert_eq!(tree.path_for(1), Some(vec![c1, hash2(&c3, &z0)]));
    assert_eq!(tree.path_for(2), Some(vec![z0, hash2(&c1, &c2)]));
    assert_ne!(z1, z0);
}

#[test]
fn path_indices_are_the_bits_of_the_index() {
    assert_eq!(path_indices(0, 3), vec![0, 0, 0]);
    assert_eq!(path_indices(5, 3), vec![1, 0, 1]);
    assert_eq!(path_indices(6, 4), vec![0, 1, 1, 0]);
    assert_eq!(path_indices(7, 0), Vec::<u8>::new());
}

#[test]
fn verify_commitment_checks_lengths_before_hashing() {
    let root = zero_digest();
    let c = leaf(1);
    assert_eq!(
        verify_commitment(&c, &root, &vec![c, c], &vec![0]),
        Err(ErrorCode::MerkleProofMismatch)
    );
    let long = vec![c; 21];
    let sides = vec![0u8; 21];
    assert_eq!(
        verify_commitment(&c, &root, &long, &sides),
        Err(ErrorCode::MerkleProofTooLong)
    );
    let longest = vec![c; 20];
    let sides = vec![0u8; 20];
    assert_eq!(
        verify_commitment(&c, &root, &longest, &sides),
        Err(ErrorCode::RootMismatch)
    );
    assert_eq!(verify_commitment(&c, &c, &vec![], &vec![]), Ok(()));
}

#[test]
fn verify_commitment_hashes_on_the_side_given() {
    let (c, s) = (leaf(1), leaf(2));
    let left = hash2(&c, &s);
    let right = hash2(&s, &c);
    assert_eq!(verify_commitment(&c, &left, &vec![s], &vec![0]), Ok(()));
    assert_eq!(verify_commitment(&c, &right, &vec![s], &vec![1]), Ok(()));
    assert_eq!(verify_commitment(&c, &right, &vec![s], &vec![7]), Ok(()));
    assert_eq!(
        verify_commitment(&c, &left, &vec![s], &vec![1]),
        Err(ErrorCode::RootMismatch)
    );
}

#[test]
fn pool_opens_only_with_the_agreed_genesis_root() {
    let agreed = genesis_root();
    let mut z = zero_digest();
    for _ in 0..TREE_DEPTH {
        z = hash2(&z, &z);
    }
    assert_eq!(agreed, z);
    let state = try_initialize(agreed).unwrap();
    assert_eq!(state.root(), agreed);
    assert_eq!(state.next_index(), 0);
    assert_eq!(state.depth(), TREE_DEPTH);
    assert_eq!(state.history_capacity(), ROOT_HISTORY_SIZE);
    assert!(try_initialize([7u8; 32]).is_none());
    assert!(try_initialize(zero_digest()).is_none());
    let direct = initialize(agreed);
    assert_eq!(direct.root(), agreed);
}

#[test]
fn add_commitment_returns_the_new_root() {
    let mut state = try_initialize(genesis_root()).unwrap();
    let r0 = state.root();
    let r1 = add_commitment(&mut state, leaf(1)).unwrap();
    assert_ne!(r1, r0);
    assert_eq!(state.root(), r1);
    assert_eq!(state.next_index(), 1);
    let mut small = State::new(1, 2);
    assert!(add_commitment(&mut small, leaf(1)).is_ok());
    assert!(add_commitment(&mut small, leaf(2)).is_ok());
    let full_root = small.root();
    assert_eq!(add_commitment(&mut small, leaf(3)), Err(TreeFull));
    assert_eq!(small.root(), full_root);
}

#[test]
fn genesis_root_leaves_the_window_after_thirty_inserts() {
    let mut state = try_initialize(genesis_root()).unwrap();
    let r0 = state.root();
    for tag in 0..29u8 {
        state.insert(leaf(tag)).unwrap();
        assert!(state.is_known_root(&r0));
    }
    state.insert(leaf(200)).unwrap();
    assert!(!state.is_known_root(&r0));
}
