use axecs::component::{Bundle, BundleValidator, Component, ComponentTypeInfo};
use axecs::query::{ClaimId, QueryValidator, QueryValidatorEntryState};

struct Position;

impl Component for Position {
    fn spec_type_info() -> ComponentTypeInfo {
        Self::type_info()
    }

    fn type_info() -> ComponentTypeInfo {
        ComponentTypeInfo::new(7, 12, 4, "game::Position")
    }
}

fn info(id: u64, name: &'static str) -> ComponentTypeInfo {
    ComponentTypeInfo::new(id, 8, 8, name)
}

#[test]
fn component_type_info_of_type() {
    let info = ComponentTypeInfo::of::<Position>();
    assert_eq!(info.type_id(), 7);
    assert_eq!(info.layout().size(), 12);
    assert_eq!(info.layout().align(), 4);
    assert_eq!(info.name(), "game::Position");
}

#[test]
fn bundle_validator_empty_is_ok() {
    let validator = BundleValidator::empty();
    assert!(!validator.has_violation());
    assert!(validator.violation().is_none());
    assert_eq!(validator.to_string(), "Query OK");
}

#[test]
fn bundle_validator_flags_duplicate() {
    let a = BundleValidator::of_included(&info(1, "game::Health"));
    let b = BundleValidator::of_included(&info(1, "game::Health"));
    let joined = BundleValidator::join(a, b);
    assert!(joined.has_violation());
    assert_eq!(
        joined.to_string(),
        "Bundle violates the archetype rules:\n  Already included Health"
    );
    assert_eq!(joined.violation(), Some(joined.to_string()));
}

#[test]
fn bundle_validator_distinct_types_are_ok() {
    let a = BundleValidator::of_included(&info(1, "game::Health"));
    let b = BundleValidator::of_included(&info(2, "game::Damage"));
    let joined = BundleValidator::join(a, b);
    assert!(!joined.has_violation());
    assert_eq!(joined.to_string(), "Query OK");
}

#[test]
fn bundle_validator_lists_every_duplicate() {
    let mut validator = BundleValidator::empty();
    for (id, name) in [(1, "a::One"), (2, "a::Two"), (1, "a::One"), (3, "a::Three"), (2, "a::Two")] {
        validator = BundleValidator::join(validator, BundleValidator::of_included(&info(id, name)));
    }
    assert_eq!(
        validator.to_string(),
        "Bundle violates the archetype rules:\n  Already included One\n  Already included Two"
    );
}

#[test]
fn bundle_violation_is_sticky_on_both_sides() {
    let bad = BundleValidator::join(
        BundleValidator::of_included(&info(1, "One")),
        BundleValidator::of_included(&info(1, "One")),
    );
    let left = BundleValidator::join(bad, BundleValidator::of_included(&info(2, "Two")));
    assert!(left.has_violation());
    let bad = BundleValidator::join(
        BundleValidator::of_included(&info(1, "One")),
        BundleValidator::of_included(&info(1, "One")),
    );
    let right = BundleValidator::join(BundleValidator::of_included(&info(2, "Two")), bad);
    assert!(right.has_violation());
}

#[test]
fn bundle_validate_tells_valid_from_invalid() {
    let valid: Bundle<u32> = Bundle::new().with(info(1, "One"), 10).with(info(2, "Two"), 20);
    assert!(!valid.validate().has_violation());
    let invalid: Bundle<u32> = Bundle::new().with(info(1, "One"), 10).with(info(1, "One"), 20);
    assert!(invalid.validate().has_violation());
}

#[test]
fn bundle_type_info_is_canonical() {
    let bundle: Bundle<u8> = Bundle::new()
        .with(ComponentTypeInfo::new(5, 1, 1, "Small"), 0)
        .with(ComponentTypeInfo::new(9, 8, 8, "BigLate"), 0)
        .with(ComponentTypeInfo::new(2, 8, 8, "BigEarly"), 0)
        .with(ComponentTypeInfo::new(3, 4, 4, "Middle"), 0);
    let ids: Vec<u64> = bundle.type_info().iter().map(|info| info.type_id()).collect();
    assert_eq!(ids, vec![2, 9, 3, 5]);
    assert_eq!(bundle.type_ids(), vec![5, 9, 2, 3]);
}

fn imm(id: u64) -> QueryValidator {
    QueryValidator::of_immutable(id, "mod::Thing")
}

fn mutable(id: u64) -> QueryValidator {
    QueryValidator::of_mutable(id, "mod::Thing")
}

fn owned(id: u64) -> QueryValidator {
    QueryValidator::of_owned(id, "mod::Thing")
}

#[test]
fn query_validator_shared_reads_are_ok() {
    let joined = QueryValidator::join(imm(1), imm(1));
    assert!(!joined.has_violation());
    assert_eq!(joined.to_string(), "Query OK");
}

#[test]
fn query_validator_mutable_aliasing_is_reported() {
    let joined = QueryValidator::join(mutable(1), imm(1));
    assert!(joined.has_violation());
    assert_eq!(
        joined.to_string(),
        "Query would violate the borrow checker rules:\n  Already mutably borrowed Thing"
    );
    let joined = QueryValidator::join(imm(1), mutable(1));
    assert!(joined.has_violation());
    let joined = QueryValidator::join(mutable(1), mutable(1));
    assert!(joined.has_violation());
}

#[test]
fn query_validator_owned_dominates() {
    for other in [imm(1), mutable(1), owned(1)] {
        let joined = QueryValidator::join(owned(1), other);
        assert_eq!(
            joined.to_string(),
            "Query would violate the borrow checker rules:\n  Already took ownership of Thing"
        );
    }
    let mutable_error = QueryValidator::join(mutable(1), imm(1));
    let joined = QueryValidator::join(mutable_error, owned(1));
    assert_eq!(
        joined.to_string(),
        "Query would violate the borrow checker rules:\n  Already took ownership of Thing"
    );
}

#[test]
fn query_validator_join_is_commutative_and_associative() {
    let message = |v: QueryValidator| (v.has_violation(), v.to_string());
    let ab_c = QueryValidator::join(QueryValidator::join(imm(1), mutable(2)), imm(2));
    let a_bc = QueryValidator::join(imm(1), QueryValidator::join(mutable(2), imm(2)));
    assert_eq!(message(ab_c), message(a_bc));
    let ab = QueryValidator::join(imm(1), mutable(1));
    let ba = QueryValidator::join(mutable(1), imm(1));
    assert_eq!(message(ab), message(ba));
}

#[test]
fn query_validator_distinct_values_do_not_conflict() {
    let joined = QueryValidator::join(mutable(1), mutable(2));
    assert!(!joined.has_violation());
    assert!(joined.violation().is_none());
}

#[test]
fn query_validator_panic_on_violation_passes_clean_validators() {
    QueryValidator::join(imm(1), imm(2)).panic_on_violation();
    BundleValidator::of_included(&info(1, "One")).panic_on_violation();
}

#[test]
fn component_and_resource_claims_do_not_meet() {
    let on_resource = QueryValidator::of(
        ClaimId::Resource(7),
        "mod::Thing",
        QueryValidatorEntryState::Mutable,
    );
    let joined = QueryValidator::join(mutable(7), on_resource);
    assert!(!joined.has_violation());
    assert_eq!(joined.to_string(), "Query OK");
}

#[test]
fn resource_claims_conflict_with_each_other() {
    let first =
        QueryValidator::of(ClaimId::Resource(7), "game::Score", QueryValidatorEntryState::Mutable);
    let second = QueryValidator::of(
        ClaimId::Resource(7),
        "game::Score",
        QueryValidatorEntryState::Immutable,
    );
    let joined = QueryValidator::join(first, second);
    assert!(joined.has_violation());
    assert_eq!(
        joined.to_string(),
        "Query would violate the borrow checker rules:\n  Already mutably borrowed Score"
    );
}

#[test]
fn joined_validator_names_the_type_of_the_later_claim() {
    let first = QueryValidator::of_mutable(1, "early::Name");
    let second = QueryValidator::of_immutable(1, "late::Other");
    let third = QueryValidator::of_owned(2, "mod::Taken");
    let joined = QueryValidator::join(QueryValidator::join(first, second), third);
    let again = QueryValidator::join(joined, QueryValidator::of_immutable(2, "mod::Taken"));
    assert_eq!(
        again.to_string(),
        "Query would violate the borrow checker rules:\n  Already mutably borrowed Other\n  Already took ownership of Taken"
    );
}

#[test]
fn message_lists_component_types_before_resource_types() {
    let resource = QueryValidator::join(
        QueryValidator::of(ClaimId::Resource(1), "res::Clock", QueryValidatorEntryState::Owned),
        QueryValidator::of(ClaimId::Resource(1), "res::Clock", QueryValidatorEntryState::Immutable),
    );
    let component = QueryValidator::join(mutable(1), imm(1));
    let joined = QueryValidator::join(resource, component);
    assert_eq!(
        joined.to_string(),
        "Query would violate the borrow checker rules:\n  Already mutably borrowed Thing\n  Already took ownership of Clock"
    );
}

#[test]
fn bundle_validator_marks_the_repeated_types_only() {
    let bundle: Bundle<i32> = Bundle::new()
        .with(ComponentTypeInfo::new(5, 4, 4, "a::Once"), 0)
        .with(ComponentTypeInfo::new(9, 4, 4, "a::Twice"), 0)
        .with(ComponentTypeInfo::new(9, 4, 4, "b::Twice"), 0);
    assert_eq!(
        bundle.validate().to_string(),
        "Bundle violates the archetype rules:\n  Already included Twice"
    );
}
