use cqrs_core::EntityId;

#[test]
fn from_name_is_deterministic() {
    let a = EntityId::from_name("alice");
    let b = EntityId::from_name("alice");
    assert_eq!(a, b);
    assert_eq!(a.value(), b.value());
}

#[test]
fn different_names_give_different_ids() {
    let a = EntityId::from_name("alice");
    let b = EntityId::from_name("bob");
    assert_ne!(a, b);
}

#[test]
fn from_name_matches_name_based_uuid() {
    let id = EntityId::from_name("alice");
    let reference = uuid::Uuid::new_v5(&uuid::Uuid::NAMESPACE_URL, "alice".as_bytes());
    assert_eq!(id.value(), reference.as_u128());
}

#[test]
fn canonical_form_is_hyphenated_lowercase_hex() {
    let id = EntityId::from_name("alice");
    let text = id.to_canonical();
    assert_eq!(text.len(), 36);
    for (i, c) in text.chars().enumerate() {
        if i == 8 || i == 13 || i == 18 || i == 23 {
            assert_eq!(c, '-');
        } else {
            assert!(c.is_ascii_hexdigit());
            assert!(!c.is_ascii_uppercase());
        }
    }
}

#[test]
fn canonical_form_of_zero() {
    let id = EntityId::from_value(0);
    assert_eq!(id.to_canonical(), "00000000-0000-0000-0000-000000000000");
}

#[test]
fn canonical_form_encodes_the_value() {
    let id = EntityId::from_value(0x0123456789abcdef0123456789abcdefu128);
    assert_eq!(id.to_canonical(), "01234567-89ab-cdef-0123-456789abcdef");
}

#[test]
fn random_ids_are_fresh() {
    let a = EntityId::new();
    let b = EntityId::new();
    assert_ne!(a, b);
}

#[test]
fn from_value_round_trips() {
    let id = EntityId::from_value(42);
    assert_eq!(id.value(), 42);
}
