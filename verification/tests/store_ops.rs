use bills::store::{Bill, Bills};

fn names_and_amounts(store: &Bills) -> Vec<(String, String)> {
    store
        .get_all()
        .iter()
        .map(|b| (b.name().to_string(), b.amount().to_string()))
        .collect()
}

#[test]
fn add_then_list_round_trip() {
    let mut store = Bills::new();
    store.add(Bill::new("rent".to_string(), "1200.0".to_string()));
    let all = names_and_amounts(&store);
    assert_eq!(all.len(), 1);
    assert_eq!(all[0].0, "rent");
    assert_eq!(all[0].1, "1200.0");
}

#[test]
fn adds_keep_one_record_per_name_with_last_amount() {
    let mut store = Bills::new();
    store.add(Bill::new("rent".to_string(), "1200".to_string()));
    store.add(Bill::new("water".to_string(), "30".to_string()));
    store.add(Bill::new("rent".to_string(), "1300".to_string()));
    store.add(Bill::new("power".to_string(), "55".to_string()));
    store.add(Bill::new("rent".to_string(), "1400".to_string()));
    let mut all = names_and_amounts(&store);
    all.sort();
    assert_eq!(
        all,
        vec![
            ("power".to_string(), "55".to_string()),
            ("rent".to_string(), "1400".to_string()),
            ("water".to_string(), "30".to_string()),
        ]
    );
}

#[test]
fn update_mutates_only_existing() {
    let mut store = Bills::new();
    store.add(Bill::new("rent".to_string(), "1200".to_string()));
    assert!(!store.update("water", "30".to_string()));
    let all = names_and_amounts(&store);
    assert_eq!(all, vec![("rent".to_string(), "1200".to_string())]);
    assert!(store.update("rent", "1250".to_string()));
    let all = names_and_amounts(&store);
    assert_eq!(all, vec![("rent".to_string(), "1250".to_string())]);
}

#[test]
fn remove_is_idempotent_in_effect() {
    let mut store = Bills::new();
    store.add(Bill::new("rent".to_string(), "1200".to_string()));
    store.add(Bill::new("water".to_string(), "30".to_string()));
    assert!(store.remove("rent"));
    let all = names_and_amounts(&store);
    assert_eq!(all, vec![("water".to_string(), "30".to_string())]);
    assert!(!store.remove("rent"));
    let all = names_and_amounts(&store);
    assert_eq!(all, vec![("water".to_string(), "30".to_string())]);
}

#[test]
fn remove_on_empty_store_reports_false() {
    let mut store = Bills::new();
    assert!(!store.remove("rent"));
    assert!(store.get_all().is_empty());
}

#[test]
fn bill_line_holds_name_then_amount() {
    let b = Bill::new("rent".to_string(), "1200".to_string());
    assert_eq!(b.line(), "name:\"rent\", amount:1200");
}
