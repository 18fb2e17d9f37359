use bookworm::EntryType;
use bookworm::Error;

#[test]
fn parse_known_tokens() {
    assert_eq!(EntryType::parse("constant"), Ok(EntryType::Constant));
    assert_eq!(EntryType::parse("enum"), Ok(EntryType::Enum));
    assert_eq!(EntryType::parse("fn"), Ok(EntryType::Function));
    assert_eq!(EntryType::parse("function"), Ok(EntryType::Function));
    assert_eq!(EntryType::parse("macro"), Ok(EntryType::Macro));
    assert_eq!(EntryType::parse("method"), Ok(EntryType::Method));
    assert_eq!(EntryType::parse("module"), Ok(EntryType::Module));
    assert_eq!(EntryType::parse("struct"), Ok(EntryType::Struct));
    assert_eq!(EntryType::parse("trait"), Ok(EntryType::Trait));
    assert_eq!(EntryType::parse("type"), Ok(EntryType::Type));
    assert_eq!(EntryType::parse("variant"), Ok(EntryType::Variant));
    assert_eq!(EntryType::parse("attr"), Ok(EntryType::Attribute));
    assert_eq!(EntryType::parse("attribute"), Ok(EntryType::Attribute));
}

#[test]
fn parse_is_case_insensitive() {
    assert_eq!(EntryType::parse("STRUCT"), Ok(EntryType::Struct));
    assert_eq!(EntryType::parse("Enum"), Ok(EntryType::Enum));
    assert_eq!(EntryType::parse("Fn"), Ok(EntryType::Function));
}

#[test]
fn parse_unknown_token_fails() {
    assert_eq!(
        EntryType::parse("widget"),
        Err(Error::UnknownEntryType("widget".to_string()))
    );
    assert_eq!(EntryType::parse(""), Err(Error::UnknownEntryType(String::new())));
}

#[test]
fn labels_name_each_kind() {
    assert_eq!(EntryType::Struct.label(), "Struct");
    assert_eq!(EntryType::Method.label(), "Method");
    assert_eq!(EntryType::Attribute.label(), "Attribute");
    assert_eq!(EntryType::Type.label(), "Type");
}

#[test]
fn all_lists_every_kind_once() {
    let all = EntryType::all();
    assert_eq!(all.len(), 11);
    for (i, a) in all.iter().enumerate() {
        for (j, b) in all.iter().enumerate() {
            if i != j {
                assert_ne!(a, b);
            }
        }
    }
    assert!(all.contains(&EntryType::Module));
    assert!(all.contains(&EntryType::Variant));
}
