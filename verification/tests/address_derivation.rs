use test_123::address::derive_record_address;

fn tree_bytes() -> [u8; 32] {
    let mut b = [0u8; 32];
    b[31] = 7;
    b
}

fn other_tree_bytes() -> [u8; 32] {
    let mut b = [0u8; 32];
    b[31] = 8;
    b
}

fn program_bytes() -> [u8; 32] {
    let mut b = [0u8; 32];
    b[31] = 9;
    b
}

fn owner_from(n: u64) -> [u8; 32] {
    let mut b = [0u8; 32];
    let le = n.to_le_bytes();
    b[..8].copy_from_slice(&le);
    b
}

#[test]
fn derivation_is_deterministic() {
    for n in 0..50u64 {
        let owner = owner_from(n);
        let (a1, s1) = derive_record_address(&owner, &tree_bytes(), &program_bytes());
        let (a2, s2) = derive_record_address(&owner, &tree_bytes(), &program_bytes());
        assert_eq!(a1, a2);
        assert_eq!(s1, s2);
    }
}

#[test]
fn distinct_owners_yield_distinct_addresses() {
    // a simple linear congruential walk over owner values
    let mut state: u64 = 0x2545_f491_4f6c_dd1d;
    let mut addresses: Vec<[u8; 32]> = Vec::new();
    for _ in 0..1000 {
        state = state.wrapping_mul(6364136223846793005).wrapping_add(1442695040888963407);
        let owner = owner_from(state);
        let (address, _) = derive_record_address(&owner, &tree_bytes(), &program_bytes());
        addresses.push(address);
    }
    addresses.sort();
    for pair in addresses.windows(2) {
        assert_ne!(pair[0], pair[1], "two distinct owners collided");
    }
}

#[test]
fn derivation_actually_hashes_its_inputs() {
    let owner = owner_from(123);
    let (address, seed) = derive_record_address(&owner, &tree_bytes(), &program_bytes());
    assert_ne!(address, owner, "the address must not echo the owner");
    assert_ne!(seed, owner, "the seed must not echo the owner");
    assert_ne!(address, seed, "address and seed are distinct digests");
    assert_ne!(address, [0u8; 32]);
}

#[test]
fn distinct_trees_yield_distinct_addresses_but_one_seed() {
    let owner = owner_from(77);
    let (a1, s1) = derive_record_address(&owner, &tree_bytes(), &program_bytes());
    let (a2, s2) = derive_record_address(&owner, &other_tree_bytes(), &program_bytes());
    assert_eq!(s1, s2, "the seed does not depend on the tree");
    assert_ne!(a1, a2, "the address does depend on the tree");
}
