use stateless_ledger::protocol::UserUpdate;
use stateless_ledger::protocol::Utxo;
use stateless_ledger::protocol::WitnessResponse;
use stateless_ledger::user::Phase;
use stateless_ledger::user::User;
use stateless_ledger::user::RANDOM_VERSION;
use stateless_ledger::user::VERSION_MASK;

const ALICE: u128 = 0xa11ce;

fn utxo(id: u128) -> Utxo {
    Utxo { id, user_id: ALICE }
}

fn answer(request_id: u128, height: u64, input: Utxo) -> WitnessResponse<&'static str> {
    WitnessResponse { request_id, block_height: height, witnesses: vec![(input, "witness")] }
}

fn update(added: &[Utxo], deleted: &[Utxo]) -> UserUpdate {
    UserUpdate { utxos_added: added.to_vec(), utxos_deleted: deleted.to_vec() }
}

#[test]
fn start_holds_the_genesis_output() {
    let user = User::start(ALICE, utxo(0));
    assert_eq!(user.user_id(), ALICE);
    assert_eq!(user.utxo_set(), &vec![utxo(0)]);
    assert_eq!(user.current_phase(), Phase::Idle);
    assert_eq!(user.get_input_for_transaction(), utxo(0));
}

#[test]
fn a_round_from_request_to_confirmation() {
    let mut user = User::start(ALICE, utxo(0));

    let request = user.request_witness_as(11).unwrap();
    assert_eq!(request.user_id, ALICE);
    assert_eq!(request.request_id, 11);
    assert_eq!(request.utxos, vec![utxo(0)]);
    assert_eq!(user.current_phase(), Phase::AwaitingWitness { request_id: 11, input: utxo(0) });

    let spend = user.receive_response_as(answer(11, 4, utxo(0)), 1).unwrap();
    assert_eq!(spend.block_height, 4);
    assert_eq!(spend.utxos_created, vec![utxo(1)]);
    assert_eq!(spend.utxos_spent_with_witnesses, vec![(utxo(0), "witness")]);
    assert_eq!(user.current_phase(), Phase::AwaitingConfirmation { input: utxo(0) });
    // The set is untouched until the block is confirmed.
    assert_eq!(user.utxo_set(), &vec![utxo(0)]);

    user.update(&update(&[utxo(1)], &[utxo(0)]));
    assert_eq!(user.utxo_set(), &vec![utxo(1)]);
    assert_eq!(user.current_phase(), Phase::Idle);
}

#[test]
fn a_request_is_repeated_as_it_was() {
    let mut user = User::start(ALICE, utxo(0));
    let first = user.request_witness_as(11).unwrap();
    let again = user.request_witness_as(99).unwrap();
    assert_eq!(again, first);
    assert_eq!(user.current_phase(), Phase::AwaitingWitness { request_id: 11, input: utxo(0) });
    let random = user.request_witness().unwrap();
    assert_eq!(random, first);
}

#[test]
fn answers_to_other_requests_are_dropped() {
    let mut user = User::start(ALICE, utxo(0));
    // Nothing is expected before a request was made.
    assert!(!user.expects(&answer(11, 0, utxo(0))));
    assert!(user.receive_response_as(answer(11, 0, utxo(0)), 1).is_none());
    assert_eq!(user.current_phase(), Phase::Idle);

    user.request_witness_as(11).unwrap();
    assert!(!user.expects(&answer(10, 0, utxo(0))));
    assert!(user.receive_response_as(answer(10, 0, utxo(0)), 1).is_none());
    assert!(user.receive_response(answer(12, 0, utxo(0))).is_none());
    assert_eq!(user.current_phase(), Phase::AwaitingWitness { request_id: 11, input: utxo(0) });

    assert!(user.expects(&answer(11, 0, utxo(0))));
    assert!(user.receive_response_as(answer(11, 0, utxo(0)), 1).is_some());
    // A second copy of the answer is late.
    assert!(!user.expects(&answer(11, 0, utxo(0))));
    assert!(user.receive_response_as(answer(11, 0, utxo(0)), 2).is_none());
    assert_eq!(user.current_phase(), Phase::AwaitingConfirmation { input: utxo(0) });
}

#[test]
fn nothing_is_requested_while_a_spend_is_unconfirmed() {
    let mut user = User::start(ALICE, utxo(0));
    user.request_witness_as(11).unwrap();
    user.receive_response_as(answer(11, 0, utxo(0)), 1).unwrap();
    assert!(user.request_witness_as(12).is_none());
    assert!(user.request_witness().is_none());
    assert_eq!(user.current_phase(), Phase::AwaitingConfirmation { input: utxo(0) });
}

#[test]
fn nothing_is_requested_without_an_output() {
    let mut user = User::start(ALICE, utxo(0));
    user.update(&update(&[], &[utxo(0)]));
    assert!(user.utxo_set().is_empty());
    assert!(user.request_witness_as(11).is_none());
    assert!(user.request_witness().is_none());
    assert_eq!(user.current_phase(), Phase::Idle);
}

#[test]
fn fresh_identifiers_are_random_ones() {
    let mut user = User::start(ALICE, utxo(0));
    let request = user.request_witness().unwrap();
    assert_eq!(request.user_id, ALICE);
    assert_eq!(request.utxos, vec![utxo(0)]);
    assert_eq!(request.request_id & VERSION_MASK, RANDOM_VERSION);
    assert_eq!(
        user.current_phase(),
        Phase::AwaitingWitness { request_id: request.request_id, input: utxo(0) }
    );

    let spend = user.receive_response(answer(request.request_id, 2, utxo(0))).unwrap();
    assert_eq!(spend.block_height, 2);
    assert_eq!(spend.utxos_created.len(), 1);
    assert_eq!(spend.utxos_created[0].user_id, ALICE);
    assert_eq!(spend.utxos_created[0].id & VERSION_MASK, RANDOM_VERSION);
    assert_ne!(spend.utxos_created[0].id, request.request_id);
    assert_eq!(spend.utxos_spent_with_witnesses, vec![(utxo(0), "witness")]);
}

#[test]
fn an_update_that_does_not_spend_the_input_confirms_nothing() {
    let mut user = User::start(ALICE, utxo(0));
    user.request_witness_as(11).unwrap();
    user.receive_response_as(answer(11, 0, utxo(0)), 1).unwrap();
    user.update(&update(&[], &[]));
    assert_eq!(user.utxo_set(), &vec![utxo(0)]);
    assert_eq!(user.current_phase(), Phase::AwaitingConfirmation { input: utxo(0) });
    user.update(&update(&[utxo(7)], &[utxo(8)]));
    assert_eq!(user.utxo_set(), &vec![utxo(0), utxo(7)]);
    assert_eq!(user.current_phase(), Phase::AwaitingConfirmation { input: utxo(0) });
    assert!(user.request_witness_as(12).is_none());
    user.update(&update(&[utxo(1)], &[utxo(0)]));
    assert_eq!(user.utxo_set(), &vec![utxo(7), utxo(1)]);
    assert_eq!(user.current_phase(), Phase::Idle);
    assert_eq!(user.request_witness_as(13).unwrap().utxos, vec![utxo(7)]);
}

#[test]
fn an_update_outside_a_round_keeps_the_phase() {
    let mut user = User::start(ALICE, utxo(0));
    user.update(&update(&[utxo(5)], &[]));
    assert_eq!(user.utxo_set(), &vec![utxo(0), utxo(5)]);
    assert_eq!(user.current_phase(), Phase::Idle);
    user.request_witness_as(11).unwrap();
    user.update(&update(&[utxo(6)], &[]));
    assert_eq!(user.current_phase(), Phase::AwaitingWitness { request_id: 11, input: utxo(0) });
}

#[test]
fn update_deletes_first_and_adds_each_output_once() {
    let mut user = User::start(ALICE, utxo(0));
    user.update(&update(&[utxo(1), utxo(2), utxo(1), utxo(0)], &[]));
    assert_eq!(user.utxo_set(), &vec![utxo(0), utxo(1), utxo(2)]);
    // Deleting what is not held does nothing; what is deleted and added stays.
    user.update(&update(&[utxo(1), utxo(3)], &[utxo(1), utxo(9), utxo(0)]));
    assert_eq!(user.utxo_set(), &vec![utxo(2), utxo(1), utxo(3)]);
    assert_eq!(user.get_input_for_transaction(), utxo(2));
}

#[test]
fn local_set_after_many_rounds() {
    let rounds: u128 = 12;
    let mut user = User::start(ALICE, utxo(0));
    for round in 0..rounds {
        let request = user.request_witness_as(1000 + round).unwrap();
        assert_eq!(request.utxos, vec![utxo(round)]);
        let spend = user
            .receive_response_as(answer(1000 + round, round as u64, utxo(round)), round + 1)
            .unwrap();
        let deleted: Vec<Utxo> =
            spend.utxos_spent_with_witnesses.iter().map(|pair| pair.0).collect();
        user.update(&UserUpdate { utxos_added: spend.utxos_created, utxos_deleted: deleted });
        // Genesis and all minted outputs, less all spent ones.
        assert_eq!(user.utxo_set(), &vec![utxo(round + 1)]);
    }
}

#[test]
fn local_set_keeps_the_order_of_creation() {
    let mut user = User::start(ALICE, utxo(0));
    user.update(&update(&[utxo(1), utxo(2)], &[]));
    user.update(&update(&[utxo(3)], &[utxo(1)]));
    user.update(&update(&[utxo(4), utxo(5)], &[utxo(0), utxo(3)]));
    // Created: 0 1 2 3 4 5; deleted: 1 0 3.
    assert_eq!(user.utxo_set(), &vec![utxo(2), utxo(4), utxo(5)]);
}
