use pdiem::bridge::{
    is_known_version, is_stale, must_init_state, new_events, new_user_transactions, Amount,
    TransactionSummary,
};

fn summary(version: u64, is_user_transaction: bool) -> TransactionSummary {
    TransactionSummary {
        version,
        is_user_transaction,
    }
}

#[test]
fn before_the_first_poll_every_event_is_new() {
    assert_eq!(new_events(&None, &vec![5, 9, 5]), vec![0, 1, 2]);
    assert_eq!(new_events(&None, &vec![]), Vec::<usize>::new());
}

#[test]
fn known_events_are_left_out() {
    let known = Some(vec![9, 3]);
    assert_eq!(new_events(&known, &vec![3, 4, 9, 10, 4]), vec![1, 3, 4]);
    assert_eq!(new_events(&known, &vec![3, 9]), Vec::<usize>::new());
    // An empty record is not the same as no record, but knows nothing either.
    assert_eq!(new_events(&Some(vec![]), &vec![3, 9]), vec![0, 1]);
}

#[test]
fn only_new_user_transactions_are_handed_on() {
    let reported = vec![
        summary(1, true),
        summary(2, false),
        summary(3, true),
        summary(4, true),
        summary(5, false),
    ];
    assert_eq!(new_user_transactions(&None, &reported), vec![0, 2, 3]);
    assert_eq!(
        new_user_transactions(&Some(vec![3, 5]), &reported),
        vec![0, 3]
    );
    assert_eq!(
        new_user_transactions(&Some(vec![1, 2, 3, 4, 5]), &reported),
        Vec::<usize>::new()
    );
}

#[test]
fn versions_are_looked_up_in_the_record() {
    assert!(!is_known_version(&None, 0));
    assert!(!is_known_version(&Some(vec![]), 0));
    assert!(is_known_version(&Some(vec![4, 0, 7]), 7));
    assert!(is_known_version(&Some(vec![4, 0, 7]), 4));
    assert!(!is_known_version(&Some(vec![4, 0, 7]), 5));
    assert!(is_known_version(&Some(vec![u64::MAX]), u64::MAX));
}

#[test]
fn state_is_fetched_once_and_only_for_new_items() {
    assert!(must_init_state(1, false));
    assert!(must_init_state(usize::MAX, false));
    assert!(!must_init_state(0, false));
    assert!(!must_init_state(3, true));
    assert!(!must_init_state(0, true));
}

#[test]
fn older_ledger_info_is_stale() {
    assert!(is_stale(4, 5));
    assert!(!is_stale(5, 5));
    assert!(!is_stale(6, 5));
    assert!(is_stale(0, u64::MAX));
    assert!(!is_stale(u64::MAX, 0));
}

#[test]
fn amounts_compare_by_value() {
    let a = Amount {
        amount: 10,
        currency: "XUS".to_string(),
    };
    assert_eq!(a.clone(), a);
    assert_ne!(
        a,
        Amount {
            amount: 10,
            currency: "XDX".to_string(),
        }
    );
}
