use stateless_ledger::bridge::Bridge;
use stateless_ledger::bridge::BridgeError;
use stateless_ledger::bridge::PendingUpdate;
use stateless_ledger::natural::Natural;
use stateless_ledger::natural::MAX_LIMBS;
use stateless_ledger::protocol::Block;
use stateless_ledger::protocol::Change;
use stateless_ledger::protocol::Transaction;
use stateless_ledger::protocol::UserUpdate;
use stateless_ledger::protocol::Utxo;
use stateless_ledger::protocol::WitnessRequest;

const ALICE: u128 = 0xa11ce;
const BOB: u128 = 0xb0b;
const CAROL: u128 = 0xca401;

fn utxo(id: u128, user_id: u128) -> Utxo {
    Utxo { id, user_id }
}

fn number(value: u64) -> Natural {
    Natural::from_u64(value)
}

fn numbers(values: &[u64]) -> Vec<Natural> {
    values.iter().map(|value| Natural::from_u64(*value)).collect()
}

fn spend(height: u64, spent: &[Utxo], created: &[Utxo]) -> Transaction<&'static str> {
    Transaction {
        block_height: height,
        utxos_created: created.to_vec(),
        utxos_spent_with_witnesses: spent.iter().map(|utxo| (*utxo, "witness")).collect(),
    }
}

fn block(height: u64, transactions: Vec<Transaction<&'static str>>) -> Block<&'static str> {
    Block { height, transactions, new_acc: "accumulator" }
}

fn apply(
    bridge: &mut Bridge<&'static str>,
    block: &Block<&'static str>,
    primes: &[u64],
    witness: &'static str,
) -> Vec<(u128, UserUpdate)> {
    let pending = bridge.prepare_update(block, &numbers(primes)).unwrap().unwrap();
    bridge.commit_update(pending, witness).unwrap()
}

#[test]
fn start_sets_the_genesis_state() {
    let bridge = Bridge::start("genesis", number(3), vec![ALICE, BOB]);
    assert_eq!(bridge.utxo_set_product(), &number(3));
    assert_eq!(*bridge.utxo_set_witness(), "genesis");
    assert_eq!(bridge.block_height(), 0);
    assert_eq!(bridge.user_ids(), &vec![ALICE, BOB]);
    assert!(bridge.serves(ALICE));
    assert!(bridge.serves(BOB));
    assert!(!bridge.serves(CAROL));
}

#[test]
fn start_lists_each_user_once() {
    let bridge = Bridge::start("genesis", number(1), vec![BOB, ALICE, BOB, CAROL, ALICE]);
    assert_eq!(bridge.user_ids(), &vec![BOB, ALICE, CAROL]);
}

#[test]
fn one_user_spends_its_genesis_output() {
    let o0 = utxo(100, ALICE);
    let o1 = utxo(101, ALICE);
    let mut bridge = Bridge::start("w0", number(3), vec![ALICE]);

    // The user asks for a witness of o0, whose prime is 3.
    let request = WitnessRequest { user_id: ALICE, request_id: 7, utxos: vec![o0] };
    let requested = bridge.requested_product(&request, &numbers(&[3])).unwrap();
    assert_eq!(requested, number(3));
    let response = bridge.respond(&request, vec!["w(o0)"]);
    assert_eq!(response.request_id, 7);
    assert_eq!(response.block_height, 0);
    assert_eq!(response.witnesses, vec![(o0, "w(o0)")]);

    // The miner includes the spend in the block of height one.
    let first = block(1, vec![spend(0, &[o0], &[o1])]);
    assert!(bridge.is_next(&first));
    assert_eq!(bridge.cohort_changes(&first), vec![Change::Spent(o0), Change::Created(o1)]);
    let pending = bridge.prepare_update(&first, &numbers(&[3, 5])).unwrap().unwrap();
    assert_eq!(pending.height, 1);
    assert_eq!(pending.product, number(5));
    // Nothing is in force before the commit.
    assert_eq!(bridge.utxo_set_product(), &number(3));
    assert_eq!(bridge.block_height(), 0);

    let updates = bridge.commit_update(pending, "w1").unwrap();
    assert_eq!(bridge.utxo_set_product(), &number(5));
    assert_eq!(*bridge.utxo_set_witness(), "w1");
    assert_eq!(bridge.block_height(), 1);
    assert_eq!(
        updates,
        vec![(ALICE, UserUpdate { utxos_added: vec![o1], utxos_deleted: vec![o0] })]
    );
}

#[test]
fn a_block_delivered_twice_changes_nothing() {
    let o0 = utxo(100, ALICE);
    let o1 = utxo(101, ALICE);
    let mut bridge = Bridge::start("w0", number(3), vec![ALICE]);
    let first = block(1, vec![spend(0, &[o0], &[o1])]);
    apply(&mut bridge, &first, &[3, 5], "w1");

    assert!(!bridge.is_next(&first));
    assert!(bridge.prepare_update(&first, &numbers(&[3, 5])).unwrap().is_none());
    // Whatever the primes: the height decides first.
    assert!(bridge.prepare_update(&first, &numbers(&[])).unwrap().is_none());
    assert_eq!(bridge.utxo_set_product(), &number(5));
    assert_eq!(*bridge.utxo_set_witness(), "w1");
    assert_eq!(bridge.block_height(), 1);
}

#[test]
fn an_update_prepared_for_another_height_is_not_committed() {
    let o0 = utxo(100, ALICE);
    let o1 = utxo(101, ALICE);
    let mut bridge = Bridge::start("w0", number(3), vec![ALICE]);
    let first = block(1, vec![spend(0, &[o0], &[o1])]);
    let once = bridge.prepare_update(&first, &numbers(&[3, 5])).unwrap().unwrap();
    let twice = bridge.prepare_update(&first, &numbers(&[3, 5])).unwrap().unwrap();
    assert!(bridge.commit_update(once, "w1").is_some());
    assert!(bridge.commit_update(twice, "again").is_none());
    assert_eq!(bridge.utxo_set_product(), &number(5));
    assert_eq!(*bridge.utxo_set_witness(), "w1");
    assert_eq!(bridge.block_height(), 1);

    let forged = PendingUpdate { height: 7, product: number(1), updates: Vec::new() };
    assert!(bridge.commit_update(forged, "forged").is_none());
    assert_eq!(bridge.block_height(), 1);
}

#[test]
fn two_users_spend_in_one_block() {
    let a0 = utxo(1, ALICE);
    let a1 = utxo(2, ALICE);
    let b0 = utxo(3, BOB);
    let b1 = utxo(4, BOB);
    // Primes: a0 -> 3, b0 -> 5, a1 -> 7, b1 -> 11.
    let mut bridge = Bridge::start("w0", number(15), vec![ALICE, BOB]);
    let first = block(1, vec![spend(0, &[a0], &[a1]), spend(0, &[b0], &[b1])]);
    assert_eq!(
        bridge.cohort_changes(&first),
        vec![Change::Spent(a0), Change::Created(a1), Change::Spent(b0), Change::Created(b1)]
    );
    let updates = apply(&mut bridge, &first, &[3, 7, 5, 11], "w1");
    assert_eq!(bridge.utxo_set_product(), &number(77));
    assert_eq!(
        updates,
        vec![
            (ALICE, UserUpdate { utxos_added: vec![a1], utxos_deleted: vec![a0] }),
            (BOB, UserUpdate { utxos_added: vec![b1], utxos_deleted: vec![b0] }),
        ]
    );
    for (user, update) in updates.iter() {
        assert!(update.utxos_added.iter().all(|utxo| utxo.user_id == *user));
        assert!(update.utxos_deleted.iter().all(|utxo| utxo.user_id == *user));
    }
}

#[test]
fn every_user_gets_an_update_even_an_empty_one() {
    let a0 = utxo(1, ALICE);
    let a1 = utxo(2, ALICE);
    let mut bridge = Bridge::start("w0", number(3), vec![ALICE, BOB, CAROL]);
    let first = block(1, vec![spend(0, &[a0], &[a1])]);
    let updates = apply(&mut bridge, &first, &[3, 7], "w1");
    assert_eq!(
        updates,
        vec![
            (ALICE, UserUpdate { utxos_added: vec![a1], utxos_deleted: vec![a0] }),
            (BOB, UserUpdate { utxos_added: Vec::new(), utxos_deleted: Vec::new() }),
            (CAROL, UserUpdate { utxos_added: Vec::new(), utxos_deleted: Vec::new() }),
        ]
    );
}

#[test]
fn an_empty_block_moves_the_height_only() {
    let mut bridge = Bridge::start("w0", number(21), vec![ALICE]);
    let first = block(1, Vec::new());
    let updates = apply(&mut bridge, &first, &[], "w1");
    assert_eq!(bridge.utxo_set_product(), &number(21));
    assert_eq!(bridge.block_height(), 1);
    assert_eq!(*bridge.utxo_set_witness(), "w1");
    assert_eq!(
        updates,
        vec![(ALICE, UserUpdate { utxos_added: Vec::new(), utxos_deleted: Vec::new() })]
    );
}

#[test]
fn outputs_of_other_cohorts_are_left_alone() {
    let a0 = utxo(1, ALICE);
    let a1 = utxo(2, ALICE);
    let c0 = utxo(3, CAROL);
    let c1 = utxo(4, CAROL);
    let mut bridge = Bridge::start("w0", number(3), vec![ALICE]);
    let first = block(1, vec![spend(0, &[c0], &[c1]), spend(0, &[a0], &[a1])]);
    assert_eq!(bridge.cohort_changes(&first), vec![Change::Spent(a0), Change::Created(a1)]);
    let updates = apply(&mut bridge, &first, &[3, 13], "w1");
    assert_eq!(bridge.utxo_set_product(), &number(13));
    assert_eq!(updates.len(), 1);
    assert_eq!(updates[0].0, ALICE);
}

#[test]
fn a_block_from_further_ahead_is_dropped() {
    let a0 = utxo(1, ALICE);
    let a1 = utxo(2, ALICE);
    let bridge = Bridge::start("w0", number(3), vec![ALICE]);
    let third = block(3, vec![spend(0, &[a0], &[a1])]);
    assert!(!bridge.is_next(&third));
    assert!(bridge.prepare_update(&third, &numbers(&[3, 7])).unwrap().is_none());
    let genesis = block(0, Vec::new());
    assert!(!bridge.is_next(&genesis));
    assert!(bridge.prepare_update(&genesis, &numbers(&[])).unwrap().is_none());
}

#[test]
fn blocks_apply_in_order_of_height() {
    let a0 = utxo(1, ALICE);
    let a1 = utxo(2, ALICE);
    let a2 = utxo(3, ALICE);
    let mut bridge = Bridge::start("w0", number(3), vec![ALICE]);
    let first = block(1, vec![spend(0, &[a0], &[a1])]);
    let second = block(2, vec![spend(1, &[a1], &[a2])]);
    assert!(bridge.prepare_update(&second, &numbers(&[5, 7])).unwrap().is_none());
    apply(&mut bridge, &first, &[3, 5], "w1");
    apply(&mut bridge, &second, &[5, 7], "w2");
    assert_eq!(bridge.utxo_set_product(), &number(7));
    assert_eq!(bridge.block_height(), 2);
    assert_eq!(*bridge.utxo_set_witness(), "w2");
}

#[test]
fn an_output_created_and_spent_in_one_block() {
    let a0 = utxo(1, ALICE);
    let a1 = utxo(2, ALICE);
    let a2 = utxo(3, ALICE);
    let mut bridge = Bridge::start("w0", number(3), vec![ALICE]);
    let first = block(1, vec![spend(0, &[a0], &[a1]), spend(0, &[a1], &[a2])]);
    let updates = apply(&mut bridge, &first, &[3, 5, 5, 7], "w1");
    assert_eq!(bridge.utxo_set_product(), &number(7));
    assert_eq!(
        updates,
        vec![(ALICE, UserUpdate { utxos_added: vec![a1, a2], utxos_deleted: vec![a0, a1] })]
    );
}

#[test]
fn the_wrong_number_of_primes_is_refused() {
    let a0 = utxo(1, ALICE);
    let a1 = utxo(2, ALICE);
    let bridge = Bridge::start("w0", number(3), vec![ALICE]);
    let first = block(1, vec![spend(0, &[a0], &[a1])]);
    assert_eq!(
        bridge.prepare_update(&first, &numbers(&[3])).unwrap_err(),
        BridgeError::PrimeCount
    );
    assert_eq!(
        bridge.prepare_update(&first, &numbers(&[3, 5, 7])).unwrap_err(),
        BridgeError::PrimeCount
    );
    assert_eq!(bridge.utxo_set_product(), &number(3));
    assert_eq!(bridge.block_height(), 0);
}

#[test]
fn spending_what_is_not_live_is_refused() {
    let a0 = utxo(1, ALICE);
    let a1 = utxo(2, ALICE);
    let mut bridge = Bridge::start("w0", number(3), vec![ALICE]);
    let first = block(1, vec![spend(0, &[a0], &[a1])]);
    // The prime 11 is not in the product.
    assert_eq!(
        bridge.prepare_update(&first, &numbers(&[11, 5])).unwrap_err(),
        BridgeError::NotLive
    );
    // Nor is zero anybody's prime.
    assert_eq!(
        bridge.prepare_update(&first, &numbers(&[0, 5])).unwrap_err(),
        BridgeError::NotLive
    );
    assert_eq!(bridge.utxo_set_product(), &number(3));
    assert_eq!(bridge.block_height(), 0);
    // The block can still be applied with the right primes.
    apply(&mut bridge, &first, &[3, 5], "w1");
    assert_eq!(bridge.utxo_set_product(), &number(5));
}

#[test]
fn spending_one_output_twice_is_refused() {
    let a0 = utxo(1, ALICE);
    let a1 = utxo(2, ALICE);
    let a2 = utxo(3, ALICE);
    let bridge = Bridge::start("w0", number(3), vec![ALICE]);
    let first = block(1, vec![spend(0, &[a0], &[a1]), spend(0, &[a0], &[a2])]);
    assert_eq!(
        bridge.prepare_update(&first, &numbers(&[3, 5, 3, 7])).unwrap_err(),
        BridgeError::NotLive
    );
}

#[test]
fn a_product_that_is_too_large_is_refused() {
    let a1 = utxo(2, ALICE);
    let mut limbs = vec![0u64; MAX_LIMBS - 1];
    limbs.push(1);
    let product = Natural::from_limbs(limbs).unwrap();
    let bridge = Bridge::start("w0", product.clone(), vec![ALICE]);
    let first = block(1, vec![spend(0, &[], &[a1])]);
    let prime = Natural::from_limbs(vec![1, 1]).unwrap();
    assert_eq!(bridge.prepare_update(&first, &vec![prime]).unwrap_err(), BridgeError::Capacity);
    assert_eq!(bridge.utxo_set_product(), &product);
}

#[test]
fn the_product_follows_the_live_outputs() {
    // Primes by output identifier.
    let primes = [2u64, 3, 5, 7, 11, 13, 17, 19];
    let a = |index: u128| utxo(index, ALICE);
    let b = |index: u128| utxo(index, BOB);
    // Live at genesis: a(0) and b(1).
    let mut bridge = Bridge::start("w0", number(2 * 3), vec![ALICE, BOB]);
    let blocks = vec![
        block(1, vec![spend(0, &[a(0)], &[a(2)]), spend(0, &[b(1)], &[b(3)])]),
        block(2, vec![spend(1, &[a(2)], &[a(4)])]),
        block(3, vec![spend(2, &[b(3)], &[b(5)]), spend(2, &[a(4)], &[a(6)])]),
    ];
    let live_after = [vec![2u128, 3], vec![3, 4], vec![5, 6]];
    for (made, live) in blocks.iter().zip(live_after.iter()) {
        let changes = bridge.cohort_changes(made);
        let handed: Vec<Natural> = changes
            .iter()
            .map(|change| number(primes[change.output().id as usize]))
            .collect();
        let pending = bridge.prepare_update(made, &handed).unwrap().unwrap();
        bridge.commit_update(pending, "w").unwrap();
        let expected: u64 = live.iter().map(|id| primes[*id as usize]).product();
        assert_eq!(bridge.utxo_set_product(), &number(expected));
    }
    assert_eq!(bridge.block_height(), 3);
}
