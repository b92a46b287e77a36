use rarog::webidl::{parse_with, Definition, WebIdlErrorKind, WebIdlFrontend};
use rarog::webidl_standards::{parse_standards, StandardsWebIdlFrontend};




#[test]
fn standards_frontend_normalizes_interface_members_and_inheritance() {
    let module = StandardsWebIdlFrontend
        .parse(
            "interface Window : EventTarget { readonly attribute DOMString name; static attribute unsigned long count; undefined close(optional DOMString reason); };",
        )
        .unwrap();

    let Definition::Interface(interface) = &module.definitions[0] else {
        panic!("expected interface definition");
    };
    assert_eq!(interface.name.as_str(), "Window");
    assert_eq!(interface.inherits.as_ref().unwrap().as_str(), "EventTarget");
    assert_eq!(interface.members.len(), 3);
    assert!(module.snapshot().contains("string:DomString"));
    assert!(module.snapshot().contains("primitive:UnsignedLong"));
}

#[test]
fn standards_frontend_normalizes_dictionary_enum_typedef_and_includes() {
    let source = r#"
        dictionary Parent {};
        dictionary Options : Parent { required DOMString label; long count; };
        enum Mode { "fast", "safe" };
        typedef sequence<DOMString> Names;
        interface Target {};
        interface mixin Extra { readonly attribute boolean enabled; };
        Target includes Extra;
    "#;
    let module = StandardsWebIdlFrontend.parse(source).unwrap();

    assert_eq!(module.definitions.len(), 7);
    let snapshot = module.snapshot();
    assert!(snapshot.contains("7:Options"));
    assert!(snapshot.contains("4:fast"));
    assert!(snapshot.contains("sequence<string:DomString>"));
    assert!(snapshot.contains("includes|6:Target|5:Extra"));
}

#[test]
fn standards_frontend_owns_normalized_data_after_source_is_dropped() {
    let module = {
        let source = String::from("interface Node { attribute DOMString id; };");
        StandardsWebIdlFrontend.parse(&source).unwrap()
    };

    assert!(module.snapshot().contains("4:Node"));
    assert!(module.snapshot().contains("2:id"));
}

#[test]
fn standards_frontend_reports_parse_position() {
    let error = StandardsWebIdlFrontend.parse("interface {").unwrap_err();
    assert_eq!(error.kind, WebIdlErrorKind::Frontend);
    assert!(error.span.is_some());
}

#[test]
fn standards_frontend_fails_closed_on_unmodeled_extended_attributes() {
    let error = StandardsWebIdlFrontend
        .parse("[Exposed=Window] interface Window {};")
        .unwrap_err();
    assert_eq!(error.kind, WebIdlErrorKind::UnsupportedDefinition);
}

#[test]
fn standards_frontend_normalizes_nested_type_shapes() {
    let module = StandardsWebIdlFrontend
        .parse(
            "typedef Promise<sequence<(DOMString or unsigned long)?>>? UnsupportedOuterNullable;",
        )
        .unwrap_err();
    assert_eq!(module.kind, WebIdlErrorKind::Frontend);

    let module = StandardsWebIdlFrontend
        .parse("typedef sequence<(DOMString or unsigned long)> Values;")
        .unwrap();
    let snapshot = module.snapshot();
    assert!(snapshot.contains("sequence<union<string:DomString;primitive:UnsignedLong;>>"));
}

#[test]
fn normalizes_supported_definitions_into_owned_ir() {
    let source = r#"
        interface mixin WindowExtras {
            readonly attribute DOMString title;
        };
        interface Window : EventTarget {
            attribute unsigned long count;
            static undefined reset(optional DOMString reason, long... values);
        };
        partial interface Window {
            readonly attribute boolean ready;
        };
        dictionary Options : BaseOptions {
            required boolean enabled;
            DOMString label;
        };
        partial dictionary Options {
            unsigned long retryCount;
        };
        enum Mode { "fast", "safe" };
        typedef (DOMString or long)? MaybeValue;
        Window includes WindowExtras;
    "#;

    let module = parse_with(&StandardsWebIdlFrontend, source).unwrap();
    let snapshot = module.snapshot();

    assert_eq!(module.definitions.len(), 8);
    assert!(snapshot.contains("interface|12:WindowExtras|-|false|true"));
    assert!(snapshot.contains("interface|6:Window|11:EventTarget|false|false"));
    assert!(snapshot.contains("operation||5:reset|undefined|true"));
    assert!(snapshot.contains("dictionary|7:Options|11:BaseOptions|false"));
    assert!(snapshot.contains("enum|4:Mode|4:fast4:safe"));
    assert!(snapshot.contains("nullable<union<string:DomString;primitive:Long;>>"));
    assert!(snapshot.contains("includes|6:Window|12:WindowExtras"));
}

#[test]
fn rejects_constructs_missing_from_the_normalized_ir() {
    let error = parse_with(
        &StandardsWebIdlFrontend,
        "interface Example { const long value = 1; };",
    )
    .unwrap_err();

    assert_eq!(error.kind, WebIdlErrorKind::UnsupportedDefinition);
    assert!(error.message.contains("interface constants"));
}

#[test]
fn rejects_extended_attributes_instead_of_dropping_them() {
    let error = parse_with(
        &StandardsWebIdlFrontend,
        "[Exposed=Window] interface Example {};",
    )
    .unwrap_err();

    assert_eq!(error.kind, WebIdlErrorKind::UnsupportedDefinition);
    assert!(error.message.contains("extended attributes"));
}

#[test]
fn malformed_input_returns_a_frontend_error_with_a_span() {
    let error = parse_with(&StandardsWebIdlFrontend, "interface Example {").unwrap_err();

    assert_eq!(error.kind, WebIdlErrorKind::Frontend);
    assert!(error.span.is_some());
}

#[test]
fn parser_does_not_expose_borrowed_vendor_ast_data() {
    let module = {
        let source = String::from("typedef unsigned long Count;");
        parse_with(&StandardsWebIdlFrontend, &source).unwrap()
    };

    assert_eq!(module.definitions.len(), 1);
    assert!(module.snapshot().contains("5:Count"));
}

#[test]
fn normalization_refusals_carry_exact_messages() {
    let error = StandardsWebIdlFrontend.parse("[Exposed=Window] interface Example {};").unwrap_err();
    assert_eq!(error.message, "unsupported WebIDL construct: extended attributes on interface");
    assert_eq!(error.span, None);
    let error = StandardsWebIdlFrontend
        .parse("dictionary D { long x = 3; };")
        .unwrap_err();
    assert_eq!(error.message, "unsupported WebIDL construct: dictionary member default values");
    let error = StandardsWebIdlFrontend.parse("callback F = undefined ();").unwrap_err();
    assert_eq!(error.message, "unsupported WebIDL construct: callback definitions");
    let source = "interface A {}; interface B {";
    let error = StandardsWebIdlFrontend.parse(source).unwrap_err();
    assert_eq!(error.kind, WebIdlErrorKind::Frontend);
    let span = error.span.unwrap();
    assert!(span.start <= source.len() && span.end <= source.len());
}

#[test]
fn parse_standards_reports_unread_input_at_its_offset() {
    let ok = parse_standards("typedef long Count;").unwrap();
    assert_eq!(ok.definitions.len(), 1);
    assert!(ok.diagnostics.is_empty());
    let error = parse_standards("typedef long Count; !").unwrap_err();
    assert_eq!(error.kind, WebIdlErrorKind::Frontend);
    let span = error.span.unwrap();
    assert!(span.start <= 21 && span.end <= 21);
}
