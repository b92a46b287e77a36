use rarog::webidl::{
    Definition, DictionaryDefinition, DictionaryMember, Identifier, IncludesDefinition,
    InterfaceDefinition, InterfaceMember, PrimitiveType, StringType, TypedefDefinition,
    WebIdlErrorKind, WebIdlModule, WebIdlType,
};
use rarog::webidl_binding::build_binding_metadata;

fn identifier(value: &str) -> Identifier {
    Identifier::new(value).unwrap()
}

fn module(definitions: Vec<Definition>) -> WebIdlModule {
    WebIdlModule {
        definitions,
        diagnostics: Vec::new(),
    }
}

fn interface(name: &str, members: Vec<InterfaceMember>, partial: bool, mixin: bool) -> Definition {
    Definition::Interface(InterfaceDefinition {
        name: identifier(name),
        inherits: None,
        members,
        partial,
        mixin,
    })
}

fn attribute(name: &str, value_type: WebIdlType, readonly: bool) -> InterfaceMember {
    InterfaceMember::Attribute {
        name: identifier(name),
        value_type,
        readonly,
        static_: false,
    }
}

fn dictionary(name: &str, members: Vec<DictionaryMember>, partial: bool) -> Definition {
    Definition::Dictionary(DictionaryDefinition {
        name: identifier(name),
        inherits: None,
        members,
        partial,
    })
}

fn typedef(name: &str) -> Definition {
    Definition::Typedef(TypedefDefinition {
        name: identifier(name),
        value_type: WebIdlType::Primitive(PrimitiveType::UnsignedLong),
    })
}

fn includes(target: &str, mixin: &str) -> Definition {
    Definition::Includes(IncludesDefinition {
        target: identifier(target),
        mixin: identifier(mixin),
    })
}

#[test]
fn metadata_order_is_independent_of_top_level_definition_order() {
    // typedef unsigned long Zebra; interface Beta {}; interface Alpha {};
    let first = build_binding_metadata(module(vec![
        typedef("Zebra"),
        interface("Beta", vec![], false, false),
        interface("Alpha", vec![], false, false),
    ]))
    .unwrap();
    // interface Alpha {}; typedef unsigned long Zebra; interface Beta {};
    let second = build_binding_metadata(module(vec![
        interface("Alpha", vec![], false, false),
        typedef("Zebra"),
        interface("Beta", vec![], false, false),
    ]))
    .unwrap();

    assert_eq!(first, second);
    let snapshot = first.snapshot();
    assert!(snapshot.find("5:Alpha").unwrap() < snapshot.find("4:Beta").unwrap());
    assert!(snapshot.find("4:Beta").unwrap() < snapshot.find("5:Zebra").unwrap());
}

#[test]
fn metadata_merges_partial_definitions_and_orders_includes() {
    // partial interface Example { readonly attribute DOMString extra; };
    // interface mixin Extra { attribute boolean enabled; };
    // interface Example { attribute long base; };
    // Example includes Extra;
    // partial dictionary Options { DOMString label; };
    // dictionary Options { required boolean enabled; };
    let module = module(vec![
        interface(
            "Example",
            vec![attribute("extra", WebIdlType::String(StringType::DomString), true)],
            true,
            false,
        ),
        interface(
            "Extra",
            vec![attribute("enabled", WebIdlType::Primitive(PrimitiveType::Boolean), false)],
            false,
            true,
        ),
        interface(
            "Example",
            vec![attribute("base", WebIdlType::Primitive(PrimitiveType::Long), false)],
            false,
            false,
        ),
        includes("Example", "Extra"),
        dictionary(
            "Options",
            vec![DictionaryMember {
                name: identifier("label"),
                value_type: WebIdlType::String(StringType::DomString),
                required: false,
            }],
            true,
        ),
        dictionary(
            "Options",
            vec![DictionaryMember {
                name: identifier("enabled"),
                value_type: WebIdlType::Primitive(PrimitiveType::Boolean),
                required: true,
            }],
            false,
        ),
    ]);

    let metadata = build_binding_metadata(module).unwrap();
    assert_eq!(metadata.definitions.len(), 4);
    let snapshot = metadata.snapshot();
    assert!(snapshot.contains("7:Example|-|false|false"));
    assert!(snapshot.contains("5:extra|string:DomString|true|false"));
    assert!(snapshot.contains("4:base|primitive:Long|false|false"));
    assert!(snapshot.contains("7:Options|-|false"));
    assert!(snapshot.contains("5:label|string:DomString|false"));
    assert!(snapshot.contains("includes|7:Example|5:Extra"));
}

#[test]
fn metadata_rejects_duplicate_non_partial_definitions() {
    // interface Example {}; interface Example {};
    let error = build_binding_metadata(module(vec![
        interface("Example", vec![], false, false),
        interface("Example", vec![], false, false),
    ]))
    .unwrap_err();

    assert_eq!(error.kind, WebIdlErrorKind::Validation);
    assert!(error.message.contains("duplicate non-partial"));
}

#[test]
fn metadata_rejects_orphan_partials() {
    // partial interface Example {};
    let error =
        build_binding_metadata(module(vec![interface("Example", vec![], true, false)])).unwrap_err();

    assert_eq!(error.kind, WebIdlErrorKind::Validation);
    assert!(error.message.contains("has no non-partial definition"));
}

#[test]
fn metadata_rejects_conflicting_named_definition_kinds() {
    // interface Example {}; typedef unsigned long Example;
    let error = build_binding_metadata(module(vec![
        interface("Example", vec![], false, false),
        typedef("Example"),
    ]))
    .unwrap_err();

    assert_eq!(error.kind, WebIdlErrorKind::Validation);
    assert!(error.message.contains("conflicting WebIDL definitions"));
}

#[test]
fn metadata_rejects_invalid_includes_relations() {
    // interface mixin Extra {}; Missing includes Extra;
    let missing_target = build_binding_metadata(module(vec![
        interface("Extra", vec![], false, true),
        includes("Missing", "Extra"),
    ]))
    .unwrap_err();
    assert_eq!(missing_target.kind, WebIdlErrorKind::Validation);
    assert!(missing_target.message.contains("no interface definition"));

    // interface Example {}; interface Extra {}; Example includes Extra;
    let non_mixin = build_binding_metadata(module(vec![
        interface("Example", vec![], false, false),
        interface("Extra", vec![], false, false),
        includes("Example", "Extra"),
    ]))
    .unwrap_err();
    assert_eq!(non_mixin.kind, WebIdlErrorKind::Validation);
    assert!(non_mixin.message.contains("not an interface mixin"));
}

#[test]
fn metadata_keeps_partial_member_order_and_refuses_repeated_includes() {
    let merged = build_binding_metadata(module(vec![
        interface("Thing", vec![attribute("b", WebIdlType::Any, false)], true, false),
        interface("Thing", vec![attribute("a", WebIdlType::Any, false)], false, false),
        interface("Thing", vec![attribute("c", WebIdlType::Any, false)], true, false),
    ]))
    .unwrap();
    match &merged.definitions[0] {
        Definition::Interface(x) => {
            let names: Vec<String> = x
                .members
                .iter()
                .map(|m| match m {
                    InterfaceMember::Attribute { name, .. } => name.as_str().to_owned(),
                    InterfaceMember::Operation { .. } => String::new(),
                })
                .collect();
            assert_eq!(names, vec!["a", "b", "c"]);
            assert!(!x.partial);
        }
        _ => panic!("expected an interface"),
    }
    let repeated = build_binding_metadata(module(vec![
        interface("A", vec![], false, false),
        interface("M", vec![], false, true),
        includes("A", "M"),
        includes("A", "M"),
    ]))
    .unwrap_err();
    assert!(repeated.message.contains("duplicate WebIDL includes relation: A includes M"));
    let inherits = build_binding_metadata(module(vec![Definition::Interface(InterfaceDefinition {
        name: identifier("P"),
        inherits: Some(identifier("Q")),
        members: vec![],
        partial: true,
        mixin: false,
    })]))
    .unwrap_err();
    assert!(inherits.message.contains("must not declare inheritance"));
}

#[test]
fn metadata_refusals_carry_exact_messages() {
    let conflict = build_binding_metadata(module(vec![
        interface("Example", vec![], false, false),
        typedef("Example"),
    ]))
    .unwrap_err();
    assert_eq!(conflict.message, "conflicting WebIDL definitions for Example: interface and typedef");
    let duplicate = build_binding_metadata(module(vec![
        interface("Example", vec![], false, false),
        interface("Example", vec![], false, false),
    ]))
    .unwrap_err();
    assert_eq!(duplicate.message, "duplicate non-partial WebIDL interface definition: Example");
    let orphan =
        build_binding_metadata(module(vec![interface("Example", vec![], true, false)])).unwrap_err();
    assert_eq!(orphan.message, "partial WebIDL interface Example has no non-partial definition");
    let missing = build_binding_metadata(module(vec![
        interface("Extra", vec![], false, true),
        includes("Missing", "Extra"),
    ]))
    .unwrap_err();
    assert_eq!(missing.message, "WebIDL includes target Missing has no interface definition");
    let non_mixin = build_binding_metadata(module(vec![
        interface("Example", vec![], false, false),
        interface("Extra", vec![], false, false),
        includes("Example", "Extra"),
    ]))
    .unwrap_err();
    assert_eq!(non_mixin.message, "WebIDL includes source Extra is interface, not an interface mixin");
}
