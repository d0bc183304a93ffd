use risk_scoring::entity::{name_less, Entity};

#[test]
fn entity_keeps_names_in_order() {
    let mut e = Entity::new();
    e.insert("late_payments".to_string(), 2);
    e.insert("credit_score".to_string(), 720);
    e.insert("debt_ratio".to_string(), 45);
    assert_eq!(e.len(), 3);
    assert_eq!(e.name_at(0), "credit_score");
    assert_eq!(e.name_at(1), "debt_ratio");
    assert_eq!(e.name_at(2), "late_payments");
    assert_eq!(e.value_at(0), 720);
    assert_eq!(e.value_at(2), 2);
}

#[test]
fn entity_insert_replaces_existing() {
    let mut e = Entity::new();
    e.insert("a".to_string(), 1);
    e.insert("b".to_string(), 2);
    e.insert("a".to_string(), 10);
    assert_eq!(e.len(), 2);
    assert_eq!(e.get(&"a".to_string()), Some(10));
    assert_eq!(e.get(&"b".to_string()), Some(2));
    assert_eq!(e.get(&"c".to_string()), None);
}

#[test]
fn empty_entity() {
    let e = Entity::new();
    assert_eq!(e.len(), 0);
    assert_eq!(e.get(&"x".to_string()), None);
}

#[test]
fn name_order_is_lexicographic() {
    assert!(name_less(&"a".to_string(), &"b".to_string()));
    assert!(!name_less(&"b".to_string(), &"a".to_string()));
    assert!(name_less(&"ab".to_string(), &"abc".to_string()));
    assert!(!name_less(&"abc".to_string(), &"abc".to_string()));
    assert!(name_less(&"".to_string(), &"a".to_string()));
    assert!(name_less(&"Z".to_string(), &"a".to_string()));
    assert!(name_less(&"é".to_string(), &"中".to_string()));
}
