use city_chain::block::Block;
use city_chain::dpos::{in_term, listed, DPoS, Representative, Roster, ROSTER_SIZE, TERM_DAYS};
use city_chain::error::LedgerError;
use city_chain::evaluation::{
    calculate_contribution, get_user_municipality, saturating_sum, score, EvaluationItems,
    EvaluationRegistry,
};
use city_chain::transaction::{Transaction, TransactionType};

const NEW_YEAR_2024: i64 = 1_704_067_200_000;
const DAY: i64 = 86_400_000;

fn rep(user: &str, start: i64, end: i64) -> Representative {
    Representative {
        user_id: user.to_string(),
        municipality: "Asia-Tokyo".to_string(),
        start_date: start,
        end_date: end,
        score: 0,
    }
}

fn tokyo(reps: Vec<Representative>, active: Option<&str>) -> DPoS {
    DPoS {
        user_evaluations: EvaluationRegistry::new(),
        municipal_representatives: vec![Roster {
            municipality: "Asia-Tokyo".to_string(),
            representatives: reps,
            active: active.map(|a| a.to_string()),
        }],
    }
}

fn transfer(id: &str, sender: &str, receiver: &str, amount: u64) -> Transaction {
    Transaction::with_id(
        id.to_string(),
        sender.to_string(),
        receiver.to_string(),
        amount,
        TransactionType::Send,
        "Asia-Tokyo".to_string(),
        "Europe-London".to_string(),
        "Asia".to_string(),
        "Europe".to_string(),
        NEW_YEAR_2024,
    )
}

#[test]
fn term_covers_both_ends() {
    let r = rep("a", 10, 20);
    assert!(!in_term(&r, 9));
    assert!(in_term(&r, 10));
    assert!(in_term(&r, 15));
    assert!(in_term(&r, 20));
    assert!(!in_term(&r, 21));
}

#[test]
fn approval_needs_an_active_representative_within_term() {
    let mut tx = transfer("tx1", "Alice", "Bob", 100);

    let nobody = DPoS::new();
    assert_eq!(
        nobody.approve_transaction_at(&mut tx, 15),
        Err(LedgerError::NoRepresentativeAvailable)
    );

    let not_elected = tokyo(vec![rep("a", 10, 20)], None);
    assert_eq!(
        not_elected.approve_transaction_at(&mut tx, 15),
        Err(LedgerError::NoRepresentativeAvailable)
    );

    let elected = tokyo(vec![rep("a", 10, 20), rep("b", 10, 30)], Some("a"));
    assert_eq!(
        elected.approve_transaction_at(&mut tx, 21),
        Err(LedgerError::RepresentativeTermExpired)
    );
    assert_eq!(
        elected.approve_transaction_at(&mut tx, 9),
        Err(LedgerError::RepresentativeTermExpired)
    );
    assert_eq!(tx.signature, "");
    assert!(!elected.has_approved(&tx));

    for now in [10, 15, 20] {
        let mut fresh = transfer("tx1", "Alice", "Bob", 100);
        assert_eq!(elected.approve_transaction_at(&mut fresh, now), Ok(()));
        assert_eq!(fresh.signature, "approved_by_a");
        assert_eq!(fresh.amount, 100);
        assert_eq!(fresh.transaction_id, "tx1");
        assert!(elected.has_approved(&fresh));
    }

    let stranger = tokyo(vec![rep("a", 10, 20)], Some("z"));
    assert_eq!(
        stranger.approve_transaction_at(&mut tx, 15),
        Err(LedgerError::RepresentativeTermExpired)
    );
}

#[test]
fn approval_of_another_municipality_does_not_count() {
    let registry = tokyo(vec![rep("a", 10, 20)], Some("a"));
    let mut tx = transfer("tx1", "Alice", "Bob", 100);
    tx.sender_municipality = "Asia-Osaka".to_string();
    assert_eq!(
        registry.approve_transaction_at(&mut tx, 15),
        Err(LedgerError::NoRepresentativeAvailable)
    );
    tx.signature = "approved_by_a".to_string();
    assert!(!registry.has_approved(&tx));
    assert_eq!(registry.approver("Asia-Tokyo", 15), Ok("a".to_string()));
}

#[test]
fn approval_at_the_present_instant() {
    let registry = tokyo(vec![rep("a", 0, i64::MAX)], Some("a"));
    let mut tx = transfer("tx1", "Alice", "Bob", 100);
    assert_eq!(registry.approve_transaction(&mut tx), Ok(()));
    assert_eq!(tx.signature, "approved_by_a");
    let lapsed = tokyo(vec![rep("a", 0, 1)], Some("a"));
    let mut other = transfer("tx2", "Alice", "Bob", 100);
    assert_eq!(lapsed.approve_transaction(&mut other), Err(LedgerError::RepresentativeTermExpired));
    assert_eq!(other.signature, "");
}

#[test]
fn election_picks_one_within_term() {
    let mut registry =
        tokyo(vec![rep("early", 0, 5), rep("a", 10, 20), rep("b", 10, 30), rep("late", 40, 50)], None);
    assert_eq!(registry.in_term_places("Asia-Tokyo", 15), vec![1, 2]);
    for _ in 0..20 {
        let elected = registry.elect_representative_at("Asia-Tokyo", 15).unwrap();
        assert!(elected.user_id == "a" || elected.user_id == "b");
        assert_eq!(registry.active_representative("Asia-Tokyo"), Some(elected.user_id.clone()));
        assert_eq!(registry.approver("Asia-Tokyo", 15), Ok(elected.user_id));
    }
    let only = registry.elect_representative_at("Asia-Tokyo", 25).unwrap();
    assert_eq!(only.user_id, "b");
    assert_eq!(registry.representatives_of("Asia-Tokyo").len(), 4);
}

#[test]
fn election_fails_without_roster_or_term() {
    let mut registry = tokyo(vec![rep("a", 10, 20)], Some("a"));
    assert_eq!(
        registry.elect_representative_at("Asia-Osaka", 15).err(),
        Some(LedgerError::NoRepresentativeAvailable)
    );
    assert_eq!(
        registry.elect_representative_at("Asia-Tokyo", 35).err(),
        Some(LedgerError::NoRepresentativeAvailable)
    );
    assert_eq!(registry.active_representative("Asia-Tokyo"), Some("a".to_string()));
    assert!(registry.in_term_places("Asia-Tokyo", 35).is_empty());
    assert!(registry.in_term_places("Asia-Osaka", 15).is_empty());
    assert_eq!(
        registry.elect_representative("Asia-Tokyo").err(),
        Some(LedgerError::NoRepresentativeAvailable)
    );
}

#[test]
fn appointment_takes_a_serving_representative_only() {
    let mut registry = tokyo(vec![rep("a", 10, 20), rep("b", 10, 30)], None);
    assert_eq!(
        registry.appoint("Asia-Tokyo", "c", 15).err(),
        Some(LedgerError::NoRepresentativeAvailable)
    );
    assert_eq!(
        registry.appoint("Asia-Tokyo", "a", 25).err(),
        Some(LedgerError::NoRepresentativeAvailable)
    );
    assert_eq!(registry.active_representative("Asia-Tokyo"), None);
    assert_eq!(registry.appoint("Asia-Tokyo", "b", 25).unwrap().user_id, "b");
    assert_eq!(registry.active_representative("Asia-Tokyo"), Some("b".to_string()));
    assert_eq!(registry.roster_position("Asia-Tokyo"), Some(0));
    assert_eq!(registry.roster_position("Asia-Osaka"), None);
}

#[test]
fn block_is_approved_by_the_batch_municipality() {
    let registry = tokyo(vec![rep("a", 10, 20)], Some("a"));
    let block = Block::create_new_block(0, 15, &vec![transfer("tx1", "A", "B", 1)], "genesis");
    assert!(registry.approve_block(&block, "Asia-Tokyo", 15));
    assert!(!registry.approve_block(&block, "Asia-Tokyo", 21));
    assert!(!registry.approve_block(&block, "Asia-Osaka", 15));
    let mut forged = block.clone();
    forged.data = "[]".to_string();
    assert!(!registry.approve_block(&forged, "Asia-Tokyo", 15));
}

#[test]
fn municipality_is_read_from_the_user_id() {
    assert_eq!(get_user_municipality("Asia-Tokyo-User1"), "Asia-Tokyo");
    assert_eq!(get_user_municipality("Asia-Tokyo-User-1"), "Asia-Tokyo");
    assert_eq!(get_user_municipality("Asia-Tokyo"), "Asia-Tokyo");
    assert_eq!(get_user_municipality("Asia-"), "Asia-");
    assert_eq!(get_user_municipality("Alice"), "Unknown-Municipality");
    assert_eq!(get_user_municipality(""), "Unknown-Municipality");
}

#[test]
fn transaction_credits_sender_and_receiver() {
    let mut registry = EvaluationRegistry::new();
    let tx = transfer("tx1", "Alice", "Bob", 100);
    assert_eq!(calculate_contribution(&tx), 100);
    registry.update_user_evaluations(&tx);
    registry.update_user_evaluations(&transfer("tx2", "Bob", "Alice", 30));
    assert_eq!(registry.len(), 2);
    let alice = registry.items_of("Alice");
    assert_eq!(alice.total_love_token_usage, 100);
    assert_eq!(alice.value_from_tokens_received, 30);
    assert_eq!(alice.contribution_by_token_usage, 100);
    assert_eq!(score(&alice), 230);
    let bob = registry.items_of("Bob");
    assert_eq!(bob.total_love_token_usage, 30);
    assert_eq!(bob.value_from_tokens_received, 100);
    assert_eq!(bob.contribution_by_token_usage, 30);
    let nobody = registry.items_of("Carol");
    assert_eq!(score(&nobody), 0);
    assert_eq!(registry.entry(0).unwrap().user_id, "Alice");
    assert!(registry.entry(2).is_none());
}

#[test]
fn transaction_to_oneself_credits_one_record() {
    let mut registry = EvaluationRegistry::new();
    registry.update_user_evaluations(&transfer("tx1", "Alice", "Alice", 5));
    assert_eq!(registry.len(), 1);
    assert_eq!(
        registry.items_of("Alice"),
        EvaluationItems {
            total_love_token_usage: 5,
            value_from_tokens_received: 5,
            contribution_by_token_usage: 5,
        }
    );
}

#[test]
fn sums_saturate() {
    assert_eq!(saturating_sum(1, 2), 3);
    assert_eq!(saturating_sum(u64::MAX, 1), u64::MAX);
    assert_eq!(saturating_sum(u64::MAX - 1, 1), u64::MAX);
    let mut registry = EvaluationRegistry::new();
    registry.credit("Alice", u64::MAX, u64::MAX, u64::MAX);
    registry.credit("Alice", 1, 0, 0);
    let items = registry.items_of("Alice");
    assert_eq!(items.total_love_token_usage, u64::MAX);
    assert_eq!(score(&items), 3 * (u64::MAX as u128));
}

fn scored(users: &[(&str, u64)]) -> EvaluationRegistry {
    let mut registry = EvaluationRegistry::new();
    for (user, usage) in users {
        registry.credit(user, *usage, 0, 0);
    }
    registry
}

#[test]
fn ranking_takes_the_best_of_the_municipality() {
    let registry = scored(&[
        ("Asia-Tokyo-a", 10),
        ("Asia-Osaka-x", 99),
        ("Asia-Tokyo-b", 50),
        ("Asia-Tokyo-c", 30),
        ("Asia-Tokyo-d", 50),
        ("Asia-Tokyo-e", 0),
        ("Asia-Tokyo-f", 70),
        ("Asia-Tokyo-g", 20),
    ]);
    assert_eq!(registry.top_ranked("Asia-Tokyo", 5), vec![6, 2, 4, 3, 7]);
    assert_eq!(registry.top_ranked("Asia-Tokyo", 2), vec![6, 2]);
    assert_eq!(registry.top_ranked("Asia-Tokyo", 0), Vec::<usize>::new());
    assert_eq!(registry.top_ranked("Asia-Tokyo", 100), vec![6, 2, 4, 3, 7, 0, 5]);
    assert_eq!(registry.top_ranked("Asia-Osaka", 5), vec![1]);
    assert_eq!(registry.top_ranked("Asia-Kyoto", 5), Vec::<usize>::new());
    assert!(registry.belongs(0, "Asia-Tokyo"));
    assert!(!registry.belongs(1, "Asia-Tokyo"));
    assert!(!registry.belongs(50, "Asia-Tokyo"));
}

#[test]
fn selection_assigns_the_five_best_with_their_term() {
    assert_eq!(ROSTER_SIZE, 5);
    assert_eq!(TERM_DAYS, 90);
    let mut registry = DPoS::new();
    registry.user_evaluations = scored(&[
        ("Asia-Tokyo-a", 10),
        ("Asia-Osaka-x", 99),
        ("Asia-Tokyo-b", 50),
        ("Asia-Tokyo-c", 30),
        ("Asia-Tokyo-d", 50),
        ("Asia-Tokyo-e", 0),
        ("Asia-Tokyo-f", 70),
        ("Asia-Tokyo-g", 20),
    ]);
    registry.municipal_representatives.push(Roster {
        municipality: "Europe-London".to_string(),
        representatives: vec![rep("Europe-London-old", 0, 10)],
        active: Some("Europe-London-old".to_string()),
    });
    registry.municipal_representatives.push(Roster {
        municipality: "Asia-Tokyo".to_string(),
        representatives: vec![rep("Asia-Tokyo-old", 0, 10)],
        active: Some("Asia-Tokyo-old".to_string()),
    });
    let close = NEW_YEAR_2024 - DAY;
    let renewed = registry.perform_selection(close);
    assert_eq!(renewed, vec!["Asia-Tokyo", "Asia-Osaka"]);
    assert!(listed(&renewed, "Asia-Osaka"));
    assert!(!listed(&renewed, "Europe-London"));

    let reps = registry.representatives_of("Asia-Tokyo");
    let names: Vec<&str> = reps.iter().map(|r| r.user_id.as_str()).collect();
    assert_eq!(
        names,
        vec!["Asia-Tokyo-f", "Asia-Tokyo-b", "Asia-Tokyo-d", "Asia-Tokyo-c", "Asia-Tokyo-g"]
    );
    for r in &reps {
        assert_eq!(r.municipality, "Asia-Tokyo");
        assert_eq!(r.start_date, close + 90 * DAY);
        assert_eq!(r.end_date, close + 180 * DAY);
    }
    assert_eq!(reps[0].score, 70);
    assert_eq!(reps[4].score, 20);
    assert_eq!(registry.active_representative("Asia-Tokyo"), None);
    assert_eq!(registry.representatives_of("Asia-Osaka").len(), 1);
    assert_eq!(registry.representatives_of("Europe-London")[0].user_id, "Europe-London-old");
    assert_eq!(
        registry.active_representative("Europe-London"),
        Some("Europe-London-old".to_string())
    );
    assert_eq!(registry.municipal_representatives.len(), 3);

    assert_eq!(
        registry.elect_representative_at("Asia-Tokyo", close + 89 * DAY).err(),
        Some(LedgerError::NoRepresentativeAvailable)
    );
    assert!(registry.elect_representative_at("Asia-Tokyo", close + 90 * DAY).is_ok());
}

#[test]
fn selection_happens_on_the_first_day_of_a_quarter_only() {
    let mut registry = DPoS::new();
    registry.user_evaluations = scored(&[("Asia-Tokyo-a", 10)]);
    assert!(registry.select_representatives(NEW_YEAR_2024 + DAY).is_empty());
    assert!(registry.municipal_representatives.is_empty());
    assert_eq!(registry.select_representatives(NEW_YEAR_2024), vec!["Asia-Tokyo"]);
    let reps = registry.representatives_of("Asia-Tokyo");
    assert_eq!(reps.len(), 1);
    assert_eq!(reps[0].start_date, NEW_YEAR_2024 - DAY + 90 * DAY);
    assert_eq!(reps[0].end_date, NEW_YEAR_2024 - DAY + 180 * DAY);
}

#[test]
fn installed_roster_replaces_the_old_one() {
    let mut registry = tokyo(vec![rep("a", 10, 20)], Some("a"));
    registry.install_roster(Roster {
        municipality: "Asia-Tokyo".to_string(),
        representatives: vec![rep("b", 10, 20), rep("c", 10, 20)],
        active: None,
    });
    assert_eq!(registry.municipal_representatives.len(), 1);
    assert_eq!(registry.representatives_of("Asia-Tokyo").len(), 2);
    assert_eq!(registry.active_representative("Asia-Tokyo"), None);
    let built = registry.build_roster("Asia-Kyoto", 0);
    assert_eq!(built.municipality, "Asia-Kyoto");
    assert!(built.representatives.is_empty());
}

#[test]
fn continental_representatives_are_the_best_of_those_within_term() {
    let mut registry = DPoS::new();
    registry.user_evaluations = scored(&[
        ("Asia-Tokyo-a", 10),
        ("Asia-Tokyo-b", 50),
        ("Asia-Osaka-c", 70),
        ("Europe-London-d", 50),
        ("Europe-London-e", 90),
        ("Europe-Paris-f", 5),
        ("Europe-Paris-g", 60),
        ("Europe-Paris-h", 1),
        ("Europe-Paris-i", 2),
    ]);
    let serving = |user: &str| rep(user, 10, 20);
    registry.municipal_representatives.push(Roster {
        municipality: "Asia-Tokyo".to_string(),
        representatives: vec![serving("Asia-Tokyo-a"), serving("Asia-Tokyo-b")],
        active: None,
    });
    registry.municipal_representatives.push(Roster {
        municipality: "Asia-Osaka".to_string(),
        representatives: vec![rep("Asia-Osaka-c", 30, 40)],
        active: None,
    });
    registry.municipal_representatives.push(Roster {
        municipality: "Europe-London".to_string(),
        representatives: vec![serving("Europe-London-d"), serving("Europe-London-x")],
        active: None,
    });
    registry.municipal_representatives.push(Roster {
        municipality: "Europe-Paris".to_string(),
        representatives: vec![
            serving("Europe-Paris-f"),
            serving("Europe-Paris-g"),
            serving("Europe-Paris-h"),
            serving("Europe-Paris-i"),
        ],
        active: None,
    });
    assert!(registry.serving_somewhere("Asia-Tokyo-a", 15));
    assert!(!registry.serving_somewhere("Asia-Osaka-c", 15));
    assert!(registry.serving_somewhere("Asia-Osaka-c", 35));
    assert!(!registry.serving_somewhere("Europe-London-e", 15));
    let chosen = registry.select_continental_representatives(15);
    let names: Vec<&str> = chosen.iter().map(|e| e.user_id.as_str()).collect();
    assert_eq!(
        names,
        vec![
            "Europe-Paris-g",
            "Asia-Tokyo-b",
            "Europe-London-d",
            "Asia-Tokyo-a",
            "Europe-Paris-f"
        ]
    );
    assert_eq!(chosen[0].items.total_love_token_usage, 60);
    let later = registry.select_continental_representatives(35);
    assert_eq!(later.len(), 1);
    assert_eq!(later[0].user_id, "Asia-Osaka-c");
    assert!(registry.select_continental_representatives(99).is_empty());
}

#[test]
fn ranking_by_mask_ignores_what_the_mask_leaves_out() {
    let registry = scored(&[("a", 1), ("b", 3), ("c", 2), ("d", 9)]);
    assert_eq!(registry.top_of(&vec![true, true, true, false], 2), vec![1, 2]);
    assert_eq!(registry.top_of(&vec![true, true], 5), vec![1, 0]);
    assert_eq!(registry.top_of(&vec![false, false, false, false, true, true], 5), Vec::<usize>::new());
    assert_eq!(registry.members("Unknown-Municipality"), vec![true, true, true, true]);
}

#[test]
fn first_roster_of_a_municipality_counts() {
    let mut registry = tokyo(vec![rep("a", 10, 20)], Some("a"));
    registry.municipal_representatives.push(Roster {
        municipality: "Asia-Tokyo".to_string(),
        representatives: vec![rep("z", 10, 20)],
        active: Some("z".to_string()),
    });
    assert_eq!(registry.roster_position("Asia-Tokyo"), Some(0));
    assert_eq!(registry.approver("Asia-Tokyo", 15), Ok("a".to_string()));
    registry.install_roster(Roster {
        municipality: "Asia-Tokyo".to_string(),
        representatives: vec![rep("b", 10, 20)],
        active: None,
    });
    assert_eq!(registry.municipal_representatives.len(), 2);
    assert_eq!(registry.representatives_of("Asia-Tokyo")[0].user_id, "b");
}

#[test]
fn fresh_registry_holds_the_two_records_of_a_transfer() {
    let mut registry = DPoS::new();
    registry.update_user_evaluations(&transfer("tx1", "Alice", "Bob", 100));
    assert_eq!(registry.user_evaluations.len(), 2);
    assert_eq!(registry.user_evaluations.entry(0).unwrap().user_id, "Alice");
    assert_eq!(registry.user_evaluations.entry(1).unwrap().user_id, "Bob");
    assert_eq!(
        registry.user_evaluations.items_of("Alice"),
        EvaluationItems {
            total_love_token_usage: 100,
            value_from_tokens_received: 0,
            contribution_by_token_usage: 100,
        }
    );
    assert_eq!(
        registry.user_evaluations.items_of("Bob"),
        EvaluationItems {
            total_love_token_usage: 0,
            value_from_tokens_received: 100,
            contribution_by_token_usage: 0,
        }
    );
    registry.update_user_evaluations(&transfer("tx2", "Bob", "Alice", 1));
    assert_eq!(registry.user_evaluations.len(), 2);
}
