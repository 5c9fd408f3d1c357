use city_chain::consensus::Consensus;
use city_chain::dpos::{DPoS, Representative, Roster};
use city_chain::error::{BlockRejection, LedgerError, ValidationError};
use city_chain::evaluation::EvaluationRegistry;
use city_chain::json::batch_json;
use city_chain::node::{
    AppState, AssemblyOutcome, IngressAction, SubmitOutcome, DRAIN_THRESHOLD,
    MUNICIPAL_BATCH_LIMIT, PRODUCTION_THRESHOLD,
};
use city_chain::block::Block;
use city_chain::routing::{City, ContinentConfig, RoutingTable, Tier};
use city_chain::transaction::{Transaction, TransactionStatus, TransactionType};
use sha2::{Digest, Sha256};

const NEW_YEAR_2024: i64 = 1_704_067_200_000;
const DAY: i64 = 86_400_000;
const NEVER: u64 = u64::MAX;

fn routing() -> RoutingTable {
    RoutingTable {
        continents: vec![
            ContinentConfig {
                name: "Asia".to_string(),
                mongodb_port: "10024".to_string(),
                flask_port: "1024".to_string(),
                cities: vec![City {
                    name: "Tokyo".to_string(),
                    city_port: "20000".to_string(),
                    city_flask_port: "2000".to_string(),
                }],
            },
            ContinentConfig {
                name: "Europe".to_string(),
                mongodb_port: "10026".to_string(),
                flask_port: "1026".to_string(),
                cities: vec![City {
                    name: "London".to_string(),
                    city_port: "20100".to_string(),
                    city_flask_port: "2100".to_string(),
                }],
            },
        ],
        global_chain_url: "http://global_main_chain:1999".to_string(),
    }
}

fn rep(user: &str, municipality: &str, start: i64, end: i64) -> Representative {
    Representative {
        user_id: user.to_string(),
        municipality: municipality.to_string(),
        start_date: start,
        end_date: end,
        score: 0,
    }
}

fn node(tier: Tier) -> AppState {
    let mut state = AppState::new(tier, routing(), NEVER);
    state.dpos.municipal_representatives.push(Roster {
        municipality: "Asia-Tokyo".to_string(),
        representatives: vec![
            rep("Asia-Tokyo-Rep1", "Asia-Tokyo", NEW_YEAR_2024, NEW_YEAR_2024 + 90 * DAY),
            rep("Asia-Tokyo-Rep2", "Asia-Tokyo", NEW_YEAR_2024, NEW_YEAR_2024 + 90 * DAY),
        ],
        active: None,
    });
    state
}

fn transfer(id: &str, amount: u64) -> Transaction {
    Transaction::with_id(
        id.to_string(),
        "Alice".to_string(),
        "Bob".to_string(),
        amount,
        TransactionType::Send,
        "Asia-Tokyo".to_string(),
        "Europe-London".to_string(),
        "Asia".to_string(),
        "Europe".to_string(),
        NEW_YEAR_2024 - 5,
    )
}

fn pending_ids(state: &AppState) -> Vec<String> {
    state.get_pending_transactions().into_iter().map(|tx| tx.transaction_id).collect()
}

#[test]
fn new_node_is_empty() {
    let state = node(Tier::Municipal);
    assert_eq!(state.tier, Tier::Municipal);
    assert!(state.pending_transactions.is_empty());
    assert!(state.analytics.is_empty());
    assert!(state.approved.is_empty());
    assert!(state.dpos.user_evaluations.len() == 0);
    assert_eq!(state.blockchain.len(), 0);
    assert_eq!(state.poh.len(), 0);
    assert_eq!(state.max_wait_millis, NEVER);
    assert_eq!(PRODUCTION_THRESHOLD, 500);
    assert_eq!(DRAIN_THRESHOLD, 5);
    assert_eq!(MUNICIPAL_BATCH_LIMIT, 300);
}

#[test]
fn submitted_transaction_is_approved_forwarded_and_completed() {
    let mut state = node(Tier::Municipal);
    let now = NEW_YEAR_2024 + DAY;
    assert_eq!(state.create_transaction(transfer("tx1", 100), now), Ok(SubmitOutcome::Accepted));
    let stored = state.pending_transactions.get("tx1").unwrap();
    assert_eq!(stored.status, TransactionStatus::SendPending);
    assert_eq!(stored.created_at, now);
    assert_eq!(stored.updated_at, now);
    assert_eq!(stored.sender, "Alice");
    assert_eq!(stored.receiver, "Bob");
    assert_eq!(stored.amount, 100);
    assert_eq!(stored.sender_municipality, "Asia-Tokyo");

    let elected = state.approve_pending("tx1", now).unwrap();
    assert!(elected.user_id == "Asia-Tokyo-Rep1" || elected.user_id == "Asia-Tokyo-Rep2");
    let approved = state.pending_transactions.get("tx1").unwrap();
    assert_eq!(approved.signature, format!("approved_by_{}", elected.user_id));
    assert_eq!(approved.status, TransactionStatus::SendPending);
    assert!(state.dpos.has_approved(&approved));

    let failed = state.record_forward("tx1", false, now + 1);
    assert_eq!(failed.err(), Some(LedgerError::ForwardingFailure));
    assert_eq!(
        state.pending_transactions.get("tx1").unwrap().status,
        TransactionStatus::SendPending
    );

    let done = state.record_forward("tx1", true, now + 2).unwrap();
    assert_eq!(done.status, TransactionStatus::SendComplete);
    assert_eq!(done.updated_at, now + 2);
    assert_eq!(
        state.pending_transactions.get("tx1").unwrap().status,
        TransactionStatus::SendComplete
    );
    assert_eq!(
        state.record_forward("tx1", true, now + 3).err(),
        Some(LedgerError::InvalidTransition)
    );
    assert_eq!(
        state.record_forward("nope", true, now + 3).err(),
        Some(LedgerError::UnknownTransaction)
    );
}

#[test]
fn five_hundred_approved_transactions_become_one_block() {
    let mut state = node(Tier::Continental);
    let now = NEW_YEAR_2024 + DAY;
    state.blockchain.append_batch(now - 10, &vec![transfer("earlier", 1)]).unwrap();
    state.dpos.appoint("Asia-Tokyo", "Asia-Tokyo-Rep1", now).unwrap();
    for i in 0..499 {
        let id = format!("tx{}", i);
        assert_eq!(state.create_transaction(transfer(&id, 1 + i), now), Ok(SubmitOutcome::Accepted));
        state.approve_pending(&id, now).unwrap();
    }
    assert!(matches!(state.generate_block(0, now), AssemblyOutcome::NotDue));
    assert_eq!(state.pending_transactions.len(), 499);
    assert_eq!(state.blockchain.len(), 1);

    state.create_transaction(transfer("tx499", 500), now).unwrap();
    state.approve_pending("tx499", now).unwrap();
    let expected_batch = state.get_pending_transactions();
    assert_eq!(expected_batch.len(), 500);
    let previous = state.blockchain.latest().unwrap();

    let block = match state.generate_block(0, now + 7) {
        AssemblyOutcome::Assembled(block) => block,
        other => panic!("no block: {:?}", other),
    };
    assert_eq!(block.index, previous.index + 1);
    assert_eq!(block.prev_hash, previous.hash);
    assert_eq!(block.timestamp, now + 7);
    assert_eq!(block.data, batch_json(&expected_batch));
    let parsed: serde_json::Value = serde_json::from_str(&block.data).unwrap();
    let listed = parsed.as_array().unwrap();
    assert_eq!(listed.len(), 500);
    for (i, entry) in listed.iter().enumerate() {
        assert_eq!(entry["transaction_id"].as_str().unwrap(), format!("tx{}", i));
        assert_eq!(entry["amount"].as_u64().unwrap(), 1 + i as u64);
    }
    assert_eq!(
        block.hash,
        hex::encode(Sha256::digest(
            format!("{}{}{}{}", block.index, block.timestamp, block.data, block.prev_hash)
                .as_bytes()
        ))
    );
    assert!(state.pending_transactions.is_empty());
    assert_eq!(state.blockchain.len(), 2);
    assert_eq!(state.blockchain.latest().unwrap().hash, block.hash);
    assert_eq!(state.poh.len(), 500);
    assert_eq!(state.poh.sequence[0], expected_batch[0].generate_proof_of_history());
    assert_eq!(state.poh.sequence[499], expected_batch[499].generate_proof_of_history());
}

#[test]
fn zero_amount_is_rejected_and_never_pending() {
    let mut state = node(Tier::Municipal);
    assert_eq!(
        state.create_transaction(transfer("tx1", 0), NEW_YEAR_2024),
        Err(LedgerError::Validation(ValidationError::NonPositiveAmount))
    );
    assert!(state.pending_transactions.is_empty());
    assert!(!state.pending_transactions.contains("tx1"));
    assert_eq!(state.dpos.user_evaluations.len(), 0);
    let outcome = state.receive_transaction(transfer("tx1", 0), NEW_YEAR_2024);
    assert!(matches!(
        outcome,
        Err(LedgerError::Validation(ValidationError::NonPositiveAmount))
    ));
    assert!(state.pending_transactions.is_empty());
}

#[test]
fn expired_transaction_is_swept_and_stays_out_of_the_chain() {
    let mut state = node(Tier::Municipal);
    let created = NEW_YEAR_2024 + DAY;
    state.create_transaction(transfer("old", 5), created).unwrap();
    state.approve_pending("old", created).unwrap();
    let now = created + 181 * DAY;
    state.dpos.municipal_representatives[0].representatives[0].end_date = now + DAY;
    state.dpos.municipal_representatives[0].representatives[1].end_date = now + DAY;
    state.create_transaction(transfer("new", 6), now).unwrap();
    state.approve_pending("new", now).unwrap();

    let swept = state.clean_expired_send_pending_transactions(now);
    assert_eq!(swept.len(), 1);
    assert_eq!(swept[0].transaction_id, "old");
    assert_eq!(pending_ids(&state), vec!["new"]);

    let block = match state.try_assemble(1, usize::MAX, 0, now) {
        AssemblyOutcome::Assembled(block) => block,
        other => panic!("no block: {:?}", other),
    };
    assert!(block.data.contains("\"transaction_id\":\"new\""));
    assert!(!block.data.contains("\"transaction_id\":\"old\""));
    for b in state.get_chain() {
        assert!(!b.data.contains("\"old\""));
    }
}

#[test]
fn gossiped_block_with_wrong_prev_hash_is_reported_and_not_appended() {
    let mut receiver = node(Tier::Continental);
    receiver.blockchain.append_batch(NEW_YEAR_2024, &vec![transfer("a", 1)]).unwrap();
    let stray = Block::create_new_block(1, NEW_YEAR_2024, &vec![transfer("b", 1)], "elsewhere");
    let fitting =
        Block::create_new_block(1, NEW_YEAR_2024, &vec![transfer("c", 1)], &receiver.blockchain.tip_hash());
    let report = receiver.gossip_blocks_handler(&vec![stray.clone(), fitting.clone(), fitting.clone()]);
    assert_eq!(
        report,
        vec![Some(BlockRejection::PrevHashMismatch), None, Some(BlockRejection::Duplicate)]
    );
    let chain = receiver.get_chain();
    assert_eq!(chain.len(), 2);
    assert_eq!(chain[1].hash, fitting.hash);
    assert_eq!(receiver.receive_block(stray), Err(BlockRejection::PrevHashMismatch));
    assert_eq!(receiver.get_chain().len(), 2);
    assert_eq!(receiver.gossip_blocks_with_chains().unwrap().hash, fitting.hash);
    assert!(node(Tier::Global).gossip_blocks_with_chains().is_none());
}

#[test]
fn resubmission_changes_nothing() {
    let mut state = node(Tier::Municipal);
    assert_eq!(state.create_transaction(transfer("tx1", 100), 10), Ok(SubmitOutcome::Accepted));
    assert_eq!(state.create_transaction(transfer("tx1", 999), 20), Ok(SubmitOutcome::Duplicate));
    assert_eq!(state.pending_transactions.len(), 1);
    let stored = state.pending_transactions.get("tx1").unwrap();
    assert_eq!(stored.amount, 100);
    assert_eq!(stored.created_at, 10);
    assert_eq!(state.dpos.user_evaluations.items_of("Alice").total_love_token_usage, 100);
    assert!(matches!(
        state.receive_transaction(transfer("tx1", 5), 30),
        Ok(IngressAction::Duplicate)
    ));
    assert_eq!(state.pending_transactions.len(), 1);
}

#[test]
fn received_transaction_is_routed_to_the_next_tier() {
    let now = NEW_YEAR_2024 + DAY;
    let mut municipal = node(Tier::Municipal);
    match municipal.receive_transaction(transfer("tx1", 100), now) {
        Ok(IngressAction::Forward(url)) => assert_eq!(url, "http://127.0.0.1:1024"),
        other => panic!("unexpected: {:?}", other),
    }
    let stored = municipal.pending_transactions.get("tx1").unwrap();
    assert_eq!(stored.status, TransactionStatus::SendPending);
    assert_eq!(stored.created_at, NEW_YEAR_2024 - 5);
    assert_eq!(stored.updated_at, now);
    assert!(stored.signature.starts_with("approved_by_Asia-Tokyo-Rep"));
    assert_eq!(municipal.dpos.user_evaluations.items_of("Bob").value_from_tokens_received, 100);

    let mut continental = node(Tier::Continental);
    match continental.receive_transaction(transfer("tx1", 100), now) {
        Ok(IngressAction::Forward(url)) => assert_eq!(url, "http://global_main_chain:1999"),
        other => panic!("unexpected: {:?}", other),
    }
    let mut global = node(Tier::Global);
    assert!(matches!(
        global.receive_transaction(transfer("tx1", 100), now),
        Ok(IngressAction::Settled)
    ));
}

#[test]
fn transaction_without_representative_is_held() {
    let mut state = node(Tier::Municipal);
    let early = NEW_YEAR_2024 - DAY;
    match state.receive_transaction(transfer("tx1", 100), early) {
        Ok(IngressAction::Held(why)) => assert_eq!(why, LedgerError::NoRepresentativeAvailable),
        other => panic!("unexpected: {:?}", other),
    }
    let stored = state.pending_transactions.get("tx1").unwrap();
    assert_eq!(stored.signature, "");
    assert_eq!(stored.status, TransactionStatus::SendPending);
    assert_eq!(
        state.approve_pending("tx1", early).err(),
        Some(LedgerError::NoRepresentativeAvailable)
    );
    assert_eq!(
        state.approve_pending("nope", NEW_YEAR_2024).err(),
        Some(LedgerError::UnknownTransaction)
    );
    assert!(state.approve_pending("tx1", NEW_YEAR_2024).is_ok());
}

#[test]
fn unknown_destination_is_surfaced_and_the_transaction_kept() {
    let mut state = node(Tier::Municipal);
    state.dpos.municipal_representatives.push(Roster {
        municipality: "Africa-Cairo".to_string(),
        representatives: vec![rep("Africa-Cairo-Rep", "Africa-Cairo", 0, i64::MAX)],
        active: None,
    });
    let mut tx = transfer("tx1", 100);
    tx.sender_municipality = "Africa-Cairo".to_string();
    let outcome = state.receive_transaction(tx, NEW_YEAR_2024);
    assert!(matches!(outcome, Err(LedgerError::UnknownDestination)));
    assert!(state.pending_transactions.contains("tx1"));
    assert_eq!(state.pending_transactions.get("tx1").unwrap().signature, "approved_by_Africa-Cairo-Rep");
}

#[test]
fn status_update_follows_the_lifecycle_and_archives_shared() {
    let mut state = node(Tier::Continental);
    state.create_transaction(transfer("tx1", 100), 10).unwrap();
    assert_eq!(
        state.update_status("tx1", TransactionStatus::Shared, 11).err(),
        Some(LedgerError::InvalidTransition)
    );
    assert_eq!(
        state.update_status("tx2", TransactionStatus::SendComplete, 11).err(),
        Some(LedgerError::UnknownTransaction)
    );
    assert_eq!(
        state.pending_transactions.get("tx1").unwrap().status,
        TransactionStatus::SendPending
    );
    let updated = state.update_status("tx1", TransactionStatus::SendComplete, 12).unwrap();
    assert_eq!(updated.status, TransactionStatus::SendComplete);
    assert!(state.analytics.is_empty());
    let shared = state.update_status("tx1", TransactionStatus::Shared, 13).unwrap();
    assert_eq!(shared.status, TransactionStatus::Shared);
    assert_eq!(shared.updated_at, 13);
    assert!(state.pending_transactions.is_empty());
    assert_eq!(state.analytics.len(), 1);
    assert_eq!(state.analytics[0].transaction_id, "tx1");
    assert_eq!(state.analytics[0].status, TransactionStatus::Shared);
}

#[test]
fn completion_needs_send_complete_and_a_destination() {
    let mut state = node(Tier::Continental);
    state.create_transaction(transfer("tx1", 100), 10).unwrap();
    assert_eq!(state.complete_transaction("tx1", 11).err(), Some(LedgerError::InvalidTransition));
    assert_eq!(state.complete_transaction("tx9", 11).err(), Some(LedgerError::UnknownTransaction));
    state.update_status("tx1", TransactionStatus::SendComplete, 12).unwrap();
    let (tx, endpoint) = state.complete_transaction("tx1", 13).unwrap();
    assert_eq!(tx.status, TransactionStatus::Complete);
    assert_eq!(tx.updated_at, 13);
    assert_eq!(endpoint, "http://localhost:2100");
    assert_eq!(state.pending_transactions.get("tx1").unwrap().status, TransactionStatus::Complete);

    let mut lost = transfer("tx2", 100);
    lost.receiver_municipality = "Africa-Cairo".to_string();
    state.create_transaction(lost, 10).unwrap();
    state.update_status("tx2", TransactionStatus::SendComplete, 12).unwrap();
    assert_eq!(state.complete_transaction("tx2", 13).err(), Some(LedgerError::UnknownDestination));
    assert_eq!(
        state.pending_transactions.get("tx2").unwrap().status,
        TransactionStatus::SendComplete
    );
}

#[test]
fn query_takes_the_transaction_out() {
    let mut state = node(Tier::Continental);
    state.create_transaction(transfer("tx1", 100), 10).unwrap();
    state.create_transaction(transfer("tx2", 100), 10).unwrap();
    assert_eq!(state.handle_incoming_query("tx1").unwrap().transaction_id, "tx1");
    assert!(state.handle_incoming_query("tx1").is_none());
    assert_eq!(pending_ids(&state), vec!["tx2"]);
}

#[test]
fn gossip_makes_two_nodes_hold_the_same_transactions() {
    let mut a = node(Tier::Continental);
    let mut b = node(Tier::Continental);
    a.create_transaction(transfer("1", 1), 10).unwrap();
    a.create_transaction(transfer("2", 2), 10).unwrap();
    b.gossip_transactions_handler(&a.gossip_transactions());
    b.create_transaction(transfer("3", 3), 10).unwrap();
    let added = a.gossip_transactions_handler(&b.gossip_transactions());
    assert_eq!(added.len(), 1);
    assert_eq!(added[0].transaction_id, "3");
    assert!(b.gossip_transactions_handler(&a.gossip_transactions()).is_empty());
    let mut left = pending_ids(&a);
    let mut right = pending_ids(&b);
    left.sort();
    right.sort();
    assert_eq!(left, vec!["1", "2", "3"]);
    assert_eq!(left, right);
    for id in ["1", "2", "3"] {
        assert_eq!(
            a.pending_transactions.get(id).unwrap().amount,
            b.pending_transactions.get(id).unwrap().amount
        );
    }
}

#[test]
fn drain_makes_a_block_at_five_pending() {
    let mut state = node(Tier::Continental);
    let now = NEW_YEAR_2024 + DAY;
    for i in 0..4 {
        state.create_transaction(transfer(&format!("tx{}", i), 1), now).unwrap();
        state.approve_pending(&format!("tx{}", i), now).unwrap();
    }
    assert!(matches!(state.process_pending_transactions(0, now), AssemblyOutcome::NotDue));
    state.create_transaction(transfer("unapproved", 1), now).unwrap();
    let block = match state.process_pending_transactions(0, now) {
        AssemblyOutcome::Assembled(block) => block,
        other => panic!("no block: {:?}", other),
    };
    assert_eq!(block.index, 0);
    assert_eq!(block.prev_hash, "genesis");
    assert_eq!(pending_ids(&state), vec!["unapproved"]);
    assert_eq!(state.poh.len(), 4);
    assert!(matches!(state.generate_block(0, now), AssemblyOutcome::NotDue));
}

#[test]
fn block_is_due_when_the_wait_is_over() {
    let mut state = node(Tier::Continental);
    state.max_wait_millis = 1000;
    let now = NEW_YEAR_2024 + DAY;
    assert!(matches!(state.generate_block(1000, now), AssemblyOutcome::NothingApproved));
    state.create_transaction(transfer("tx1", 1), now).unwrap();
    assert!(matches!(state.generate_block(999, now), AssemblyOutcome::NotDue));
    assert!(matches!(state.generate_block(1000, now), AssemblyOutcome::NothingApproved));
    state.approve_pending("tx1", now).unwrap();
    assert!(matches!(state.generate_block(1000, now), AssemblyOutcome::Assembled(_)));
    assert!(state.pending_transactions.is_empty());
}

#[test]
fn rejected_block_leaves_the_batch_pending() {
    let mut state = node(Tier::Continental);
    let now = NEW_YEAR_2024 + DAY;
    state.create_transaction(transfer("tx1", 1), now).unwrap();
    state.approve_pending("tx1", now).unwrap();
    let after_term = NEW_YEAR_2024 + 91 * DAY;
    assert!(matches!(state.try_assemble(1, usize::MAX, 0, after_term), AssemblyOutcome::BlockRejected));
    assert_eq!(pending_ids(&state), vec!["tx1"]);
    assert_eq!(state.blockchain.len(), 0);
    assert_eq!(state.poh.len(), 0);
    assert!(matches!(state.try_assemble(1, usize::MAX, 0, now), AssemblyOutcome::Assembled(_)));
    assert_eq!(state.blockchain.len(), 1);
}

#[test]
fn window_limits_the_batch() {
    let mut state = node(Tier::Municipal);
    let now = NEW_YEAR_2024 + DAY;
    for i in 0..4 {
        state.create_transaction(transfer(&format!("tx{}", i), 1), now).unwrap();
        state.approve_pending(&format!("tx{}", i), now).unwrap();
    }
    assert_eq!(state.ready_batch(2).len(), 2);
    assert_eq!(state.ready_batch(9).len(), 4);
    assert!(matches!(state.try_assemble(1, 3, 0, now), AssemblyOutcome::Assembled(_)));
    assert_eq!(pending_ids(&state), vec!["tx3"]);
}

#[test]
fn municipal_batch_approves_and_assembles() {
    let mut state = node(Tier::Municipal);
    let now = NEW_YEAR_2024 + DAY;
    assert!(matches!(state.approve_and_send_transactions(now), AssemblyOutcome::NotDue));
    for i in 0..3 {
        state.create_transaction(transfer(&format!("tx{}", i), 1), now).unwrap();
    }
    let mut other = transfer("osaka", 1);
    other.sender_municipality = "Asia-Osaka".to_string();
    state.create_transaction(other, now).unwrap();
    let block = match state.approve_and_send_transactions(now) {
        AssemblyOutcome::Assembled(block) => block,
        other => panic!("no block: {:?}", other),
    };
    assert_eq!(block.index, 0);
    assert_eq!(block.timestamp, now);
    let parsed: serde_json::Value = serde_json::from_str(&block.data).unwrap();
    assert_eq!(parsed.as_array().unwrap().len(), 3);
    assert_eq!(pending_ids(&state), vec!["osaka"]);
    assert_eq!(state.blockchain.len(), 1);
    assert!(matches!(state.approve_and_send_transactions(now), AssemblyOutcome::NothingApproved));
}

#[test]
fn consensus_signs_and_records_what_is_approved() {
    let dpos = DPoS {
        user_evaluations: EvaluationRegistry::new(),
        municipal_representatives: vec![Roster {
            municipality: "Asia-Tokyo".to_string(),
            representatives: vec![rep("r", "Asia-Tokyo", 10, 20)],
            active: Some("r".to_string()),
        }],
    };
    let mut consensus = Consensus::new(dpos);
    let mut elsewhere = transfer("b", 1);
    elsewhere.sender_municipality = "Asia-Osaka".to_string();
    consensus.add_transaction(transfer("a", 1));
    consensus.add_transaction(elsewhere);
    consensus.add_transaction(transfer("c", 1));
    assert_eq!(consensus.process_transactions_at(15), 2);
    assert_eq!(consensus.transactions[0].signature, "approved_by_r");
    assert_eq!(consensus.transactions[1].signature, "");
    assert_eq!(consensus.transactions[2].signature, "approved_by_r");
    assert_eq!(
        consensus.poh.sequence,
        vec![
            consensus.transactions[0].generate_proof_of_history(),
            consensus.transactions[2].generate_proof_of_history()
        ]
    );
    let joined = format!("{}{}", consensus.poh.sequence[0], consensus.poh.sequence[1]);
    assert_eq!(consensus.generate_poh_hash(), hex::encode(Sha256::digest(joined.as_bytes())));
    assert_eq!(consensus.process_transactions_at(25), 0);
    assert_eq!(consensus.poh.len(), 2);
    assert_eq!(consensus.process_transactions(), 0);
}

#[test]
fn change_of_status_is_taken_back() {
    let mut state = node(Tier::Continental);
    state.create_transaction(transfer("tx1", 100), 10).unwrap();
    state.create_transaction(transfer("tx2", 100), 10).unwrap();
    state.update_status("tx1", TransactionStatus::SendComplete, 12).unwrap();
    let previous = state.pending_transactions.get("tx1").unwrap();
    state.update_status("tx1", TransactionStatus::Shared, 13).unwrap();
    assert_eq!(pending_ids(&state), vec!["tx2"]);
    assert_eq!(state.analytics.len(), 1);
    state.restore_transaction(previous);
    assert_eq!(pending_ids(&state), vec!["tx2", "tx1"]);
    assert!(state.analytics.is_empty());
    let back = state.pending_transactions.get("tx1").unwrap();
    assert_eq!(back.status, TransactionStatus::SendComplete);
    assert_eq!(back.updated_at, 12);

    let before = state.pending_transactions.get("tx2").unwrap();
    state.update_status("tx2", TransactionStatus::Complete, 14).unwrap();
    state.restore_transaction(before);
    assert_eq!(pending_ids(&state), vec!["tx2", "tx1"]);
    assert_eq!(
        state.pending_transactions.get("tx2").unwrap().status,
        TransactionStatus::SendPending
    );
}

#[test]
fn municipal_batch_approves_what_can_be_approved() {
    let mut state = node(Tier::Municipal);
    let now = NEW_YEAR_2024 + DAY;
    state.max_wait_millis = 0;
    let mut other = transfer("osaka", 1);
    other.sender_municipality = "Asia-Osaka".to_string();
    state.create_transaction(other, now).unwrap();
    assert!(matches!(state.approve_and_send_transactions(now), AssemblyOutcome::NothingApproved));
    assert_eq!(state.pending_transactions.get("osaka").unwrap().signature, "");
    state.create_transaction(transfer("tokyo", 1), now).unwrap();
    let early = NEW_YEAR_2024 - DAY;
    assert!(matches!(state.approve_and_send_transactions(early), AssemblyOutcome::NothingApproved));
    assert_eq!(state.pending_transactions.get("tokyo").unwrap().signature, "");
    let block = match state.approve_and_send_transactions(now) {
        AssemblyOutcome::Assembled(block) => block,
        other => panic!("no block: {:?}", other),
    };
    assert!(block.data.contains("\"transaction_id\":\"tokyo\""));
    assert!(block.data.contains("approved_by_Asia-Tokyo-Rep"));
    assert!(!block.data.contains("osaka"));
    assert_eq!(pending_ids(&state), vec!["osaka"]);
    assert!(state.dpos.active_representative("Asia-Tokyo").is_some());
}

#[test]
fn submitted_signature_does_not_count_as_approval() {
    let mut state = node(Tier::Continental);
    let out_of_term = NEW_YEAR_2024 - DAY;
    let mut forged = transfer("tx1", 100);
    forged.signature = "approved_by_Asia-Tokyo-Rep1".to_string();
    assert_eq!(state.create_transaction(forged, out_of_term), Ok(SubmitOutcome::Accepted));
    let stored = state.pending_transactions.get("tx1").unwrap();
    assert_eq!(stored.signature, "");
    assert_eq!(stored.sender, "Alice");
    assert_eq!(stored.amount, 100);
    assert!(state.approved.is_empty());
    assert!(state.ready_batch(usize::MAX).is_empty());
    assert!(matches!(state.generate_block(NEVER, out_of_term), AssemblyOutcome::NothingApproved));
    assert_eq!(state.blockchain.len(), 0);
}

#[test]
fn received_signature_does_not_count_as_approval() {
    let mut state = node(Tier::Continental);
    let out_of_term = NEW_YEAR_2024 - DAY;
    let mut forged = transfer("tx1", 100);
    forged.signature = "approved_by_Asia-Tokyo-Rep1".to_string();
    match state.receive_transaction(forged, out_of_term) {
        Ok(IngressAction::Held(LedgerError::NoRepresentativeAvailable)) => {}
        other => panic!("not held: {:?}", other),
    }
    assert_eq!(state.pending_transactions.get("tx1").unwrap().signature, "");
    assert!(state.approved.is_empty());
    assert!(state.ready_batch(usize::MAX).is_empty());
    let mut second = transfer("tx2", 100);
    second.signature = "approved_by_somebody".to_string();
    let now = NEW_YEAR_2024 + DAY;
    assert!(matches!(state.receive_transaction(second, now), Ok(IngressAction::Forward(_))));
    let stored = state.pending_transactions.get("tx2").unwrap();
    assert!(stored.signature.starts_with("approved_by_Asia-Tokyo-Rep"));
    assert_eq!(state.approved, vec!["tx2".to_string()]);
    let batch = state.ready_batch(usize::MAX);
    assert_eq!(batch.len(), 1);
    assert_eq!(batch[0].transaction_id, "tx2");
}

#[test]
fn gossiped_transaction_waits_for_the_approval_of_this_node() {
    let now = NEW_YEAR_2024 + DAY;
    let mut sender = node(Tier::Continental);
    let mut receiver = node(Tier::Continental);
    sender.create_transaction(transfer("tx1", 1), now).unwrap();
    sender.approve_pending("tx1", now).unwrap();
    assert_eq!(sender.ready_batch(usize::MAX).len(), 1);
    let added = receiver.gossip_transactions_handler(&sender.gossip_transactions());
    assert_eq!(added.len(), 1);
    assert!(added[0].signature.starts_with("approved_by_Asia-Tokyo-Rep"));
    assert!(receiver.approved.is_empty());
    assert!(receiver.ready_batch(usize::MAX).is_empty());
    assert!(matches!(receiver.process_pending_transactions(NEVER, now), AssemblyOutcome::NothingApproved));
    receiver.approve_pending("tx1", now).unwrap();
    assert_eq!(receiver.approved, vec!["tx1".to_string()]);
    assert_eq!(receiver.ready_batch(usize::MAX).len(), 1);
    assert!(matches!(receiver.process_pending_transactions(NEVER, now), AssemblyOutcome::Assembled(_)));
}

#[test]
fn approval_is_recorded_once_and_leaves_with_the_batch() {
    let mut state = node(Tier::Continental);
    let now = NEW_YEAR_2024 + DAY;
    state.create_transaction(transfer("tx1", 1), now).unwrap();
    state.create_transaction(transfer("tx2", 1), now).unwrap();
    state.approve_pending("tx1", now).unwrap();
    state.approve_pending("tx1", now).unwrap();
    assert_eq!(state.approved, vec!["tx1".to_string()]);
    assert!(matches!(state.try_assemble(1, usize::MAX, 0, now), AssemblyOutcome::Assembled(_)));
    assert!(state.approved.is_empty());
    assert_eq!(pending_ids(&state), vec!["tx2"]);
    state.approve_pending("tx2", now).unwrap();
    assert_eq!(state.approved, vec!["tx2".to_string()]);
    assert_eq!(state.create_transaction(transfer("tx2", 1), now), Ok(SubmitOutcome::Duplicate));
    assert_eq!(state.approved, vec!["tx2".to_string()]);
    state.handle_incoming_query("tx2");
    assert_eq!(state.create_transaction(transfer("tx2", 1), now), Ok(SubmitOutcome::Accepted));
    assert!(state.approved.is_empty());
    assert!(state.ready_batch(usize::MAX).is_empty());
}

#[test]
fn round_of_approvals_takes_up_what_was_held() {
    let mut state = node(Tier::Continental);
    let early = NEW_YEAR_2024 - DAY;
    let now = NEW_YEAR_2024 + DAY;
    assert!(matches!(
        state.receive_transaction(transfer("held", 1), early),
        Ok(IngressAction::Held(LedgerError::NoRepresentativeAvailable))
    ));
    let mut other = transfer("osaka", 1);
    other.sender_municipality = "Asia-Osaka".to_string();
    state.create_transaction(other, now).unwrap();
    state.create_transaction(transfer("late", 1), now).unwrap();
    state.approve_window(2, early);
    assert!(state.approved.is_empty());
    assert!(state.dpos.active_representative("Asia-Tokyo").is_none());
    state.approve_window(2, now);
    assert_eq!(state.approved, vec!["held".to_string()]);
    assert!(state
        .pending_transactions
        .get("held")
        .unwrap()
        .signature
        .starts_with("approved_by_Asia-Tokyo-Rep"));
    assert_eq!(state.pending_transactions.get("osaka").unwrap().signature, "");
    assert_eq!(state.pending_transactions.get("late").unwrap().signature, "");
    state.approve_window(usize::MAX, now);
    assert_eq!(state.approved, vec!["held".to_string(), "late".to_string()]);
    assert_eq!(pending_ids(&state), vec!["held", "osaka", "late"]);
    let batch = state.ready_batch(usize::MAX);
    assert_eq!(batch.len(), 2);
    assert_eq!(batch[0].transaction_id, "held");
    assert_eq!(batch[1].transaction_id, "late");
}
