use rarog::webidl::{
    parse_with, Argument, Definition, DiagnosticLevel, DictionaryDefinition, DictionaryMember,
    EnumDefinition, Identifier, IncludesDefinition, InterfaceDefinition, InterfaceMember,
    PrimitiveType, SourceSpan, StringType, TypedefDefinition, WebIdlDiagnostic, WebIdlError,
    WebIdlErrorKind, WebIdlFrontend, WebIdlModule, WebIdlType,
};

fn identifier(value: &str) -> Identifier {
    Identifier::new(value).unwrap()
}

#[test]
fn identifier_rejects_empty_values() {
    let error = Identifier::new("").unwrap_err();
    assert_eq!(error.kind, WebIdlErrorKind::InvalidIdentifier);
}

#[test]
fn normalized_module_snapshot_is_deterministic() {
    let module = WebIdlModule {
        definitions: vec![Definition::Interface(InterfaceDefinition {
            name: identifier("Window"),
            inherits: Some(identifier("EventTarget")),
            members: vec![
                InterfaceMember::Attribute {
                    name: identifier("name"),
                    value_type: WebIdlType::String(StringType::DomString),
                    readonly: false,
                    static_: false,
                },
                InterfaceMember::Operation {
                    name: Some(identifier("close")),
                    return_type: WebIdlType::Undefined,
                    arguments: Vec::new(),
                    static_: false,
                },
            ],
            partial: false,
            mixin: false,
        })],
        diagnostics: Vec::new(),
    };

    let first = module.snapshot();
    let second = module.clone().snapshot();
    assert_eq!(first, second);
    assert!(first.contains("6:Window"));
    assert!(first.contains("11:EventTarget"));
    assert!(first.contains("string:DomString"));
}

struct FixtureFrontend;

impl WebIdlFrontend for FixtureFrontend {
    fn parse(&self, source: &str) -> Result<WebIdlModule, WebIdlError> {
        if source.trim().is_empty() {
            return Err(WebIdlError::new(
                WebIdlErrorKind::Frontend,
                "fixture source must not be empty",
            ));
        }
        Ok(WebIdlModule {
            definitions: vec![Definition::Typedef(TypedefDefinition {
                name: identifier("Count"),
                value_type: WebIdlType::Primitive(PrimitiveType::UnsignedLong),
            })],
            diagnostics: Vec::new(),
        })
    }
}

#[test]
fn frontend_contract_returns_owned_normalized_ir() {
    let module = {
        let source = String::from("typedef unsigned long Count;");
        parse_with(&FixtureFrontend, &source).unwrap()
    };

    assert_eq!(module.definitions.len(), 1);
    assert!(module.snapshot().contains("5:Count"));
}

#[test]
fn nested_type_snapshot_preserves_shape() {
    let value_type = WebIdlType::Nullable(Box::new(WebIdlType::Promise(Box::new(
        WebIdlType::Sequence(Box::new(WebIdlType::Named(identifier("Node")))),
    ))));
    let module = WebIdlModule {
        definitions: vec![Definition::Typedef(TypedefDefinition {
            name: identifier("MaybeNodes"),
            value_type,
        })],
        diagnostics: Vec::new(),
    };

    assert!(module
        .snapshot()
        .contains("nullable<promise<sequence<named:4:Node>>>"));
}

#[test]
fn snapshot_text_of_every_definition_kind_is_exact() {
    let module = WebIdlModule {
        definitions: vec![
            Definition::Interface(InterfaceDefinition {
                name: identifier("Window"),
                inherits: Some(identifier("EventTarget")),
                members: vec![InterfaceMember::Operation {
                    name: None,
                    return_type: WebIdlType::Union(vec![
                        WebIdlType::String(StringType::UsvString),
                        WebIdlType::Primitive(PrimitiveType::UnsignedLong),
                    ]),
                    arguments: vec![Argument {
                        name: identifier("é"),
                        value_type: WebIdlType::Record {
                            key: StringType::ByteString,
                            value: Box::new(WebIdlType::Any),
                        },
                        optional: true,
                        variadic: false,
                    }],
                    static_: true,
                }],
                partial: false,
                mixin: true,
            }),
            Definition::Dictionary(DictionaryDefinition {
                name: identifier("Options"),
                inherits: None,
                members: vec![DictionaryMember {
                    name: identifier("label"),
                    value_type: WebIdlType::FrozenArray(Box::new(WebIdlType::Object)),
                    required: true,
                }],
                partial: true,
            }),
            Definition::Enum(EnumDefinition {
                name: identifier("Mode"),
                values: vec![String::from("fast"), String::from("")],
            }),
            Definition::Includes(IncludesDefinition {
                target: identifier("Window"),
                mixin: identifier("Extra"),
            }),
        ],
        diagnostics: vec![
            WebIdlDiagnostic {
                level: DiagnosticLevel::Warning,
                message: String::from("note"),
                span: Some(SourceSpan::new(3, 12)),
            },
            WebIdlDiagnostic {
                level: DiagnosticLevel::Error,
                message: String::new(),
                span: None,
            },
        ],
    };
    assert_eq!(
        module.snapshot(),
        "interface|6:Window|11:EventTarget|false|true\n operation||-|union<string:UsvString;primitive:UnsignedLong;>|true\n  argument|2:é|record:ByteString<any>|true|false\ndictionary|7:Options|-|true\n dictionary-member|5:label|frozen-array<object>|true\nenum|4:Mode|4:fast0:\nincludes|6:Window|5:Extra\ndiagnostic|Warning|3:12|4:note\ndiagnostic|Error|-|0:\n"
    );
    assert_eq!(WebIdlError::new(WebIdlErrorKind::Validation, "x").with_span(SourceSpan::new(1, 2)).span, Some(SourceSpan { start: 1, end: 2 }));
    assert_eq!(identifier("Node").as_str(), "Node");
    assert_eq!(WebIdlType::Symbol.clone(), WebIdlType::Symbol);
}
