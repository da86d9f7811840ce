use axecs::util::unqualified::{is_close_char, is_split_char, unqualify, UnqualifiedTypeName};

#[test]
fn unqualify_type_name() {
    assert_eq!(
        UnqualifiedTypeName::from_unchecked("alloc::string::String").to_string(),
        "String"
    );
    assert_eq!(
        UnqualifiedTypeName::from_unchecked("core::option::Option<(std::vec::Vec<*mut u8>,)>")
            .to_string(),
        "Option<(Vec<*mut u8>,)>"
    );
    assert_eq!(
        UnqualifiedTypeName::from_unchecked(
            "<axecs::tests::SomeType as axecs::tests::SomeTrait>::SomeTraitAssociatedType"
        )
        .to_string(),
        "<SomeType as SomeTrait>::SomeTraitAssociatedType"
    );
}

#[test]
fn unqualify_keeps_plain_names() {
    assert_eq!(unqualify("u8"), "u8");
    assert_eq!(unqualify(""), "");
    assert_eq!(unqualify("a::b::(c::D, e::F)"), "(D, F)");
    assert_eq!(unqualify("[x::Y; 3]"), "[Y; 3]");
}

#[test]
fn split_and_close_chars() {
    for ch in [' ', '<', '>', '(', ')', '[', ']', ',', ';'] {
        assert!(is_split_char(ch));
    }
    for ch in ['>', ')', ']'] {
        assert!(is_close_char(ch));
    }
    for ch in ['<', '(', '[', ' ', ',', ';', 'a', ':'] {
        assert!(!is_close_char(ch));
    }
    for ch in ['a', ':', '*', '_'] {
        assert!(!is_split_char(ch));
    }
}
