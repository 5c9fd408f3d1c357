use city_chain::error::{LedgerError, ValidationError};
use city_chain::json::{
    array_of, batch_json, join_with, kind_name, member_of, object_of, parse_kind, parse_status,
    status_name, transaction_json,
};
use city_chain::transaction::{
    approval_signature, initial_status, is_pending, names_municipality, split_municipality,
    transition_allowed,
    validate_transaction, well_formed_municipality, Transaction, TransactionStatus,
    TransactionType,
};
use sha2::{Digest, Sha256};

const NEW_YEAR_2024: i64 = 1_704_067_200_000;

fn sample(id: &str) -> Transaction {
    Transaction::with_id(
        id.to_string(),
        "Alice".to_string(),
        "Bob".to_string(),
        100,
        TransactionType::Send,
        "Asia-Tokyo".to_string(),
        "Europe-London".to_string(),
        "Asia".to_string(),
        "Europe".to_string(),
        NEW_YEAR_2024,
    )
}

#[test]
fn test_transaction_functions() {
    let transaction = Transaction::new(
        "Alice".to_string(),
        "Bob".to_string(),
        100,
        TransactionType::Send,
        "sender_municipality".to_string(),
        "receiver_municipality".to_string(),
        "Asia".to_string(),
        "Europe".to_string(),
    );

    let proof_of_history = transaction.generate_proof_of_history();
    assert!(!proof_of_history.is_empty());

    let signature_valid = transaction.verify_signature("public_key");
    assert!(!signature_valid);
}

#[test]
fn new_transaction_has_fresh_id_and_no_signature() {
    let a = Transaction::new(
        "Alice".to_string(),
        "Bob".to_string(),
        1,
        TransactionType::Receive,
        "Asia-Tokyo".to_string(),
        "Asia-Osaka".to_string(),
        "Asia".to_string(),
        "Asia".to_string(),
    );
    let b = Transaction::new(
        "Alice".to_string(),
        "Bob".to_string(),
        1,
        TransactionType::Receive,
        "Asia-Tokyo".to_string(),
        "Asia-Osaka".to_string(),
        "Asia".to_string(),
        "Asia".to_string(),
    );
    assert_eq!(a.transaction_id.len(), 36);
    assert_ne!(a.transaction_id, b.transaction_id);
    assert_eq!(a.status, TransactionStatus::Created);
    assert_eq!(a.signature, "");
    assert_eq!(a.created_at, a.updated_at);
    assert!(a.created_at > NEW_YEAR_2024);
    assert_eq!(a.amount, 1);
    assert_eq!(a.transaction_type, TransactionType::Receive);
}

#[test]
fn with_id_keeps_every_field() {
    let tx = sample("tx1");
    assert_eq!(tx.transaction_id, "tx1");
    assert_eq!(tx.sender, "Alice");
    assert_eq!(tx.receiver, "Bob");
    assert_eq!(tx.amount, 100);
    assert_eq!(tx.sender_municipality, "Asia-Tokyo");
    assert_eq!(tx.receiver_municipality, "Europe-London");
    assert_eq!(tx.sender_continent, "Asia");
    assert_eq!(tx.receiver_continent, "Europe");
    assert_eq!(tx.status, TransactionStatus::Created);
    assert_eq!(tx.created_at, NEW_YEAR_2024);
    assert_eq!(tx.updated_at, NEW_YEAR_2024);
}

#[test]
fn proof_of_history_is_the_digest_of_id_and_instant() {
    let tx = sample("tx1");
    assert_eq!(tx.history_event(), "tx11704067200000");
    let expected = hex::encode(Sha256::digest(b"tx11704067200000"));
    assert_eq!(tx.generate_proof_of_history(), expected);
    assert_eq!(tx.generate_proof_of_history().len(), 64);
    let mut early = sample("tx1");
    early.created_at = -5;
    assert_eq!(early.generate_proof_of_history(), hex::encode(Sha256::digest(b"tx1-5")));
}

#[test]
fn signature_is_checked_against_the_representative() {
    let mut tx = sample("tx1");
    assert!(!tx.verify_signature("Asia-Tokyo-Rep1"));
    tx.signature = approval_signature("Asia-Tokyo-Rep1");
    assert_eq!(tx.signature, "approved_by_Asia-Tokyo-Rep1");
    assert!(tx.verify_signature("Asia-Tokyo-Rep1"));
    assert!(!tx.verify_signature("Asia-Tokyo-Rep2"));
}

#[test]
fn valid_transaction_passes() {
    assert_eq!(validate_transaction(&sample("tx1")), Ok(()));
}

#[test]
fn zero_amount_is_refused() {
    let mut tx = sample("tx1");
    tx.amount = 0;
    assert_eq!(validate_transaction(&tx), Err(ValidationError::NonPositiveAmount));
}

#[test]
fn each_missing_field_has_its_error() {
    let mut tx = sample("");
    assert_eq!(validate_transaction(&tx), Err(ValidationError::MissingTransactionId));
    tx = sample("tx1");
    tx.sender = String::new();
    assert_eq!(validate_transaction(&tx), Err(ValidationError::MissingSender));
    tx = sample("tx1");
    tx.receiver = String::new();
    assert_eq!(validate_transaction(&tx), Err(ValidationError::MissingReceiver));
    tx = sample("tx1");
    tx.sender_municipality = "Tokyo".to_string();
    assert_eq!(validate_transaction(&tx), Err(ValidationError::MalformedSenderMunicipality));
    tx = sample("tx1");
    tx.sender_municipality = "Asia-".to_string();
    assert_eq!(validate_transaction(&tx), Err(ValidationError::MalformedSenderMunicipality));
    tx = sample("tx1");
    tx.receiver_municipality = "Europe-London-West".to_string();
    assert_eq!(validate_transaction(&tx), Err(ValidationError::MalformedReceiverMunicipality));
    tx = sample("tx1");
    tx.receiver_municipality = "-London".to_string();
    assert_eq!(validate_transaction(&tx), Err(ValidationError::MalformedReceiverMunicipality));
    tx = sample("tx1");
    tx.sender_continent = String::new();
    assert_eq!(validate_transaction(&tx), Err(ValidationError::MissingSenderContinent));
    tx = sample("tx1");
    tx.receiver_continent = String::new();
    assert_eq!(validate_transaction(&tx), Err(ValidationError::MissingReceiverContinent));
}

#[test]
fn first_broken_rule_is_reported() {
    let mut tx = sample("tx1");
    tx.sender = String::new();
    tx.amount = 0;
    assert_eq!(validate_transaction(&tx), Err(ValidationError::MissingSender));
}

#[test]
fn municipality_has_exactly_one_hyphen() {
    assert!(well_formed_municipality("Asia-Tokyo"));
    assert!(well_formed_municipality("Asia-"));
    assert!(well_formed_municipality("-"));
    assert!(!well_formed_municipality(""));
    assert!(!well_formed_municipality("Tokyo"));
    assert!(!well_formed_municipality("Asia-Tokyo-East"));
    assert_eq!(
        split_municipality("Asia-Tokyo"),
        Some(("Asia".to_string(), "Tokyo".to_string()))
    );
    assert_eq!(split_municipality("Asia-"), Some(("Asia".to_string(), String::new())));
    assert_eq!(split_municipality("AsiaTokyo"), None);
    assert!(names_municipality("Asia-Tokyo"));
    assert!(!names_municipality("Asia-"));
    assert!(!names_municipality("-Tokyo"));
    assert!(!names_municipality("-"));
    assert!(!names_municipality("Asia-Tokyo-East"));
    assert_eq!(split_municipality("A-B-C"), None);
}

#[test]
fn initial_status_follows_the_type() {
    assert_eq!(initial_status(TransactionType::Send), TransactionStatus::SendPending);
    assert_eq!(initial_status(TransactionType::Receive), TransactionStatus::ReceivePending);
    assert!(is_pending(TransactionStatus::SendPending));
    assert!(is_pending(TransactionStatus::ReceivePending));
    assert!(!is_pending(TransactionStatus::Created));
    assert!(!is_pending(TransactionStatus::SendComplete));
}

#[test]
fn lifecycle_has_these_steps_and_no_others() {
    let all = [
        TransactionStatus::Created,
        TransactionStatus::SendPending,
        TransactionStatus::ReceivePending,
        TransactionStatus::SendComplete,
        TransactionStatus::Complete,
        TransactionStatus::Shared,
        TransactionStatus::Rejected,
        TransactionStatus::Expired,
    ];
    let allowed = [
        (TransactionStatus::Created, TransactionStatus::SendPending),
        (TransactionStatus::Created, TransactionStatus::ReceivePending),
        (TransactionStatus::Created, TransactionStatus::Rejected),
        (TransactionStatus::SendPending, TransactionStatus::SendComplete),
        (TransactionStatus::SendPending, TransactionStatus::Complete),
        (TransactionStatus::SendPending, TransactionStatus::Rejected),
        (TransactionStatus::SendPending, TransactionStatus::Expired),
        (TransactionStatus::ReceivePending, TransactionStatus::SendComplete),
        (TransactionStatus::ReceivePending, TransactionStatus::Complete),
        (TransactionStatus::ReceivePending, TransactionStatus::Rejected),
        (TransactionStatus::ReceivePending, TransactionStatus::Expired),
        (TransactionStatus::SendComplete, TransactionStatus::Complete),
        (TransactionStatus::SendComplete, TransactionStatus::Shared),
        (TransactionStatus::Complete, TransactionStatus::Shared),
    ];
    for from in all {
        for to in all {
            assert_eq!(
                transition_allowed(from, to),
                allowed.contains(&(from, to)),
                "{:?} -> {:?}",
                from,
                to
            );
        }
    }
}

#[test]
fn transaction_is_written_as_a_json_object() {
    let mut tx = sample("tx1");
    tx.status = TransactionStatus::SendPending;
    let expected = "{\"transaction_id\":\"tx1\",\"sender\":\"Alice\",\"receiver\":\"Bob\",\
\"amount\":100,\"sender_municipality\":\"Asia-Tokyo\",\"receiver_municipality\":\"Europe-London\",\
\"sender_continent\":\"Asia\",\"receiver_continent\":\"Europe\",\"transaction_type\":\"send\",\
\"status\":\"send_pending\",\"signature\":\"\",\"created_at\":1704067200000,\
\"updated_at\":1704067200000}";
    assert_eq!(transaction_json(&tx), expected);
    let parsed: serde_json::Value = serde_json::from_str(&transaction_json(&tx)).unwrap();
    assert_eq!(parsed["amount"].as_u64(), Some(100));
    assert_eq!(parsed["sender"].as_str(), Some("Alice"));
}

#[test]
fn json_text_is_escaped() {
    let mut tx = sample("tx\"1\"");
    tx.sender = "Al\\ice\n".to_string();
    let text = transaction_json(&tx);
    assert!(text.starts_with("{\"transaction_id\":\"tx\\\"1\\\"\",\"sender\":\"Al\\\\ice\\n\","));
    let parsed: serde_json::Value = serde_json::from_str(&text).unwrap();
    assert_eq!(parsed["transaction_id"].as_str(), Some("tx\"1\""));
    assert_eq!(parsed["sender"].as_str(), Some("Al\\ice\n"));
}

#[test]
fn batch_is_written_as_a_json_array() {
    assert_eq!(batch_json(&Vec::new()), "[]");
    let one = vec![sample("a")];
    assert_eq!(batch_json(&one), format!("[{}]", transaction_json(&one[0])));
    let two = vec![sample("a"), sample("b")];
    assert_eq!(
        batch_json(&two),
        format!("[{},{}]", transaction_json(&two[0]), transaction_json(&two[1]))
    );
    let parsed: serde_json::Value = serde_json::from_str(&batch_json(&two)).unwrap();
    assert_eq!(parsed.as_array().unwrap().len(), 2);
}

#[test]
fn names_of_types_and_statuses_are_read_back() {
    for kind in [TransactionType::Send, TransactionType::Receive] {
        assert_eq!(parse_kind(kind_name(kind)), Some(kind));
    }
    assert_eq!(kind_name(TransactionType::Send), "send");
    assert_eq!(kind_name(TransactionType::Receive), "receive");
    assert_eq!(parse_kind("Send"), None);
    assert_eq!(parse_kind(""), None);
    let statuses = [
        (TransactionStatus::Created, "created"),
        (TransactionStatus::SendPending, "send_pending"),
        (TransactionStatus::ReceivePending, "receive_pending"),
        (TransactionStatus::SendComplete, "send_complete"),
        (TransactionStatus::Complete, "complete"),
        (TransactionStatus::Shared, "shared"),
        (TransactionStatus::Rejected, "rejected"),
        (TransactionStatus::Expired, "expired"),
    ];
    for (status, name) in statuses {
        assert_eq!(status_name(status), name);
        assert_eq!(parse_status(name), Some(status));
    }
    assert_eq!(parse_status("pending"), None);
    assert_eq!(parse_status("completed"), None);
}

#[test]
fn advance_takes_one_step_of_the_lifecycle() {
    let mut tx = sample("tx1");
    tx.status = TransactionStatus::SendComplete;
    let shared = tx.advance(TransactionStatus::Shared, 99).unwrap();
    assert_eq!(shared.status, TransactionStatus::Shared);
    assert_eq!(shared.updated_at, 99);
    assert_eq!(shared.created_at, NEW_YEAR_2024);
    assert_eq!(shared.transaction_id, "tx1");
    assert_eq!(tx.status, TransactionStatus::SendComplete);
    assert_eq!(
        tx.advance(TransactionStatus::SendPending, 99).err(),
        Some(LedgerError::InvalidTransition)
    );
    assert_eq!(
        shared.advance(TransactionStatus::Complete, 100).err(),
        Some(LedgerError::InvalidTransition)
    );
}

#[test]
fn json_is_framed_from_its_parts() {
    let parts = vec!["a".to_string(), "b".to_string(), "c".to_string()];
    assert_eq!(join_with(&parts, ","), "a,b,c");
    assert_eq!(join_with(&parts, ""), "abc");
    assert_eq!(join_with(&Vec::new(), ","), "");
    assert_eq!(join_with(&vec!["x".to_string()], ", "), "x");
    assert_eq!(member_of("\"n\"", "1"), "\"n\":1");
    assert_eq!(object_of(&parts), "{a,b,c}");
    assert_eq!(object_of(&Vec::new()), "{}");
    assert_eq!(array_of(&parts), "[a,b,c]");
    assert_eq!(array_of(&Vec::new()), "[]");
}
