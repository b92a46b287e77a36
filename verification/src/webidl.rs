//! The normalized WebIDL intermediate representation and its deterministic
//! text snapshot.
use crate::text::{decimal, push_char, push_counted, push_decimal, push_str, utf8_len};
use vstd::prelude::*;

verus! {

#[derive(Debug, PartialEq, Eq, PartialOrd, Ord, Hash)]
pub struct Identifier(String);

impl View for Identifier {
    type V = Seq<char>;

    closed spec fn view(&self) -> Seq<char> {
        self.0@
    }
}

impl Identifier {
    #[verifier::type_invariant]
    spec fn non_empty(self) -> bool {
        self.0@.len() > 0
    }

    /// A WebIDL identifier; the empty string is refused.
    pub fn new(value: &str) -> (r: Result<Self, WebIdlError>)
        ensures
            value@.len() == 0 ==> (r matches Err(e) && e.kind == WebIdlErrorKind::InvalidIdentifier
                && e.span is None && e.message@ == "WebIDL identifiers must not be empty"@),
            value@.len() > 0 ==> (r matches Ok(i) && i@ == value@),
    {
        if value.is_empty() {
            return Err(
                WebIdlError::new(
                    WebIdlErrorKind::InvalidIdentifier,
                    "WebIDL identifiers must not be empty",
                ),
            );
        }
        Ok(Identifier(value.to_owned()))
    }

    pub fn as_str(&self) -> (r: &str)
        ensures
            r@ == self@,
            r@.len() > 0,
    {
        proof {
            use_type_invariant(self);
        }
        self.0.as_str()
    }

}

impl Clone for Identifier {
    fn clone(&self) -> (r: Self)
        ensures
            r == *self,
    {
        proof {
            use_type_invariant(self);
        }
        Identifier(self.0.clone())
    }
}

#[derive(Clone, Copy, Debug, PartialEq, Eq, Structural)]
pub enum DiagnosticLevel {
    Warning,
    Error,
}

#[derive(Clone, Copy, Debug, PartialEq, Eq, Structural)]
pub struct SourceSpan {
    pub start: usize,
    pub end: usize,
}

impl SourceSpan {
    pub fn new(start: usize, end: usize) -> (r: Self)
        ensures
            r == (SourceSpan { start, end }),
    {
        SourceSpan { start, end }
    }
}

#[derive(Clone, Debug, PartialEq, Eq)]
pub struct WebIdlDiagnostic {
    pub level: DiagnosticLevel,
    pub message: String,
    pub span: Option<SourceSpan>,
}

#[derive(Clone, Copy, Debug, PartialEq, Eq, Structural)]
pub enum WebIdlErrorKind {
    InvalidIdentifier,
    Frontend,
    UnsupportedDefinition,
    Validation,
}

#[derive(Clone, Debug, PartialEq, Eq)]
pub struct WebIdlError {
    pub kind: WebIdlErrorKind,
    pub message: String,
    pub span: Option<SourceSpan>,
}

impl WebIdlError {
    pub fn new(kind: WebIdlErrorKind, message: &str) -> (r: Self)
        ensures
            r.kind == kind,
            r.message@ == message@,
            r.span is None,
    {
        WebIdlError { kind, message: message.to_owned(), span: None }
    }

    pub(crate) fn with_message(kind: WebIdlErrorKind, message: String) -> (r: Self)
        ensures
            r.kind == kind,
            r.message == message,
            r.span is None,
    {
        WebIdlError { kind, message, span: None }
    }

    pub fn with_span(self, span: SourceSpan) -> (r: Self)
        ensures
            r.kind == self.kind,
            r.message == self.message,
            r.span == Some(span),
    {
        WebIdlError { span: Some(span), ..self }
    }

    /// The error's message.
    pub fn to_string(&self) -> (r: String)
        ensures
            r@ == self.message@,
    {
        self.message.clone()
    }
}

#[derive(Clone, Copy, Debug, PartialEq, Eq, Structural)]
pub enum PrimitiveType {
    Boolean,
    Byte,
    Octet,
    Short,
    UnsignedShort,
    Long,
    UnsignedLong,
    LongLong,
    UnsignedLongLong,
    Float,
    UnrestrictedFloat,
    Double,
    UnrestrictedDouble,
}

#[derive(Clone, Copy, Debug, PartialEq, Eq, Structural)]
pub enum StringType {
    DomString,
    ByteString,
    UsvString,
}

#[derive(Debug, PartialEq, Eq)]
pub enum WebIdlType {
    Any,
    Primitive(PrimitiveType),
    String(StringType),
    Object,
    Symbol,
    Undefined,
    Named(Identifier),
    Sequence(Box<WebIdlType>),
    FrozenArray(Box<WebIdlType>),
    Promise(Box<WebIdlType>),
    Record { key: StringType, value: Box<WebIdlType> },
    Union(Vec<WebIdlType>),
    Nullable(Box<WebIdlType>),
}

/// A type as the contracts see it: a union as the sequence of its members
/// and a named type as its name.
pub enum TypeModel {
    Any,
    Primitive(PrimitiveType),
    String(StringType),
    Object,
    Symbol,
    Undefined,
    Named(Seq<char>),
    Sequence(Box<TypeModel>),
    FrozenArray(Box<TypeModel>),
    Promise(Box<TypeModel>),
    Record { key: StringType, value: Box<TypeModel> },
    Union(Seq<TypeModel>),
    Nullable(Box<TypeModel>),
}

/// The model of a type.
pub open spec fn type_model(t: WebIdlType) -> TypeModel
    decreases t,
{
    match t {
        WebIdlType::Any => TypeModel::Any,
        WebIdlType::Primitive(p) => TypeModel::Primitive(p),
        WebIdlType::String(s) => TypeModel::String(s),
        WebIdlType::Object => TypeModel::Object,
        WebIdlType::Symbol => TypeModel::Symbol,
        WebIdlType::Undefined => TypeModel::Undefined,
        WebIdlType::Named(i) => TypeModel::Named(i@),
        WebIdlType::Sequence(inner) => TypeModel::Sequence(Box::new(type_model(*inner))),
        WebIdlType::FrozenArray(inner) => TypeModel::FrozenArray(Box::new(type_model(*inner))),
        WebIdlType::Promise(inner) => TypeModel::Promise(Box::new(type_model(*inner))),
        WebIdlType::Record { key, value } => TypeModel::Record {
            key,
            value: Box::new(type_model(*value)),
        },
        WebIdlType::Union(members) => {
            proof {
                broadcast use vstd::std_specs::vec::axiom_vec_index_decreases;
            }
            TypeModel::Union(
                Seq::new(
                    members@.len(),
                    |i: int|
                        if 0 <= i < members@.len() {
                            type_model(members@[i])
                        } else {
                            TypeModel::Any
                        },
                ),
            )
        },
        WebIdlType::Nullable(inner) => TypeModel::Nullable(Box::new(type_model(*inner))),
    }
}

/// A copy of a type, built recursively.
fn clone_type(t: &WebIdlType) -> (r: WebIdlType)
    ensures
        type_model(r) == type_model(*t),
    decreases t,
{
    match t {
        WebIdlType::Any => WebIdlType::Any,
        WebIdlType::Primitive(p) => WebIdlType::Primitive(*p),
        WebIdlType::String(s) => WebIdlType::String(*s),
        WebIdlType::Object => WebIdlType::Object,
        WebIdlType::Symbol => WebIdlType::Symbol,
        WebIdlType::Undefined => WebIdlType::Undefined,
        WebIdlType::Named(i) => WebIdlType::Named(i.clone()),
        WebIdlType::Sequence(inner) => WebIdlType::Sequence(Box::new(clone_type(inner))),
        WebIdlType::FrozenArray(inner) => WebIdlType::FrozenArray(Box::new(clone_type(inner))),
        WebIdlType::Promise(inner) => WebIdlType::Promise(Box::new(clone_type(inner))),
        WebIdlType::Record { key, value } => WebIdlType::Record {
            key: *key,
            value: Box::new(clone_type(value)),
        },
        WebIdlType::Union(members) => {
            let mut copy: Vec<WebIdlType> = Vec::with_capacity(members.len());
            let mut i: usize = 0;
            while i < members.len()
                invariant
                    0 <= i <= members@.len(),
                    *t == WebIdlType::Union(*members),
                    copy@.len() == i,
                    forall|j: int|
                        0 <= j < i ==> #[trigger] type_model(copy@[j]) == type_model(members@[j]),
                decreases members@.len() - i,
            {
                proof {
                    broadcast use vstd::std_specs::vec::axiom_vec_index_decreases;
                    assert(decreases_to!(*t => (*t)->Union_0));
                    assert(decreases_to!(*members => members[i as int]));
                }
                copy.push(clone_type(&members[i]));
                i = i + 1;
            }
            let r = WebIdlType::Union(copy);
            proof {
                broadcast use vstd::std_specs::vec::axiom_vec_index_decreases;
                assert(type_model(r) == type_model(*t)) by {
                    let a = type_model(r)->Union_0;
                    let b = type_model(*t)->Union_0;
                    assert(type_model(r) is Union);
                    assert(type_model(*t) is Union);
                    assert(a.len() == b.len());
                    assert forall|k: int| 0 <= k < a.len() implies a[k] == b[k] by {
                        assert(a[k] == type_model(copy@[k]));
                        assert(b[k] == type_model(members@[k]));
                    }
                    assert(a =~= b);
                }
            }
            r
        },
        WebIdlType::Nullable(inner) => WebIdlType::Nullable(Box::new(clone_type(inner))),
    }
}

impl Clone for WebIdlType {
    fn clone(&self) -> (r: Self)
        ensures
            type_model(r) == type_model(*self),
    {
        clone_type(self)
    }
}

#[derive(Clone, Debug, PartialEq, Eq)]
pub struct Argument {
    pub name: Identifier,
    pub value_type: WebIdlType,
    pub optional: bool,
    pub variadic: bool,
}

#[derive(Clone, Debug, PartialEq, Eq)]
pub enum InterfaceMember {
    Attribute { name: Identifier, value_type: WebIdlType, readonly: bool, static_: bool },
    Operation {
        name: Option<Identifier>,
        return_type: WebIdlType,
        arguments: Vec<Argument>,
        static_: bool,
    },
}

#[derive(Clone, Debug, PartialEq, Eq)]
pub struct InterfaceDefinition {
    pub name: Identifier,
    pub inherits: Option<Identifier>,
    pub members: Vec<InterfaceMember>,
    pub partial: bool,
    pub mixin: bool,
}

#[derive(Clone, Debug, PartialEq, Eq)]
pub struct DictionaryMember {
    pub name: Identifier,
    pub value_type: WebIdlType,
    pub required: bool,
}

#[derive(Clone, Debug, PartialEq, Eq)]
pub struct DictionaryDefinition {
    pub name: Identifier,
    pub inherits: Option<Identifier>,
    pub members: Vec<DictionaryMember>,
    pub partial: bool,
}

#[derive(Clone, Debug, PartialEq, Eq)]
pub struct EnumDefinition {
    pub name: Identifier,
    pub values: Vec<String>,
}

#[derive(Clone, Debug, PartialEq, Eq)]
pub struct TypedefDefinition {
    pub name: Identifier,
    pub value_type: WebIdlType,
}

#[derive(Clone, Debug, PartialEq, Eq)]
pub struct IncludesDefinition {
    pub target: Identifier,
    pub mixin: Identifier,
}

#[derive(Clone, Debug, PartialEq, Eq)]
pub enum Definition {
    Interface(InterfaceDefinition),
    Dictionary(DictionaryDefinition),
    Enum(EnumDefinition),
    Typedef(TypedefDefinition),
    Includes(IncludesDefinition),
}

#[derive(Clone, Debug, Default, PartialEq, Eq)]
pub struct WebIdlModule {
    pub definitions: Vec<Definition>,
    pub diagnostics: Vec<WebIdlDiagnostic>,
}

// ----- the snapshot format ------------------------------------------------
/// `len:value`, with the length in UTF-8 bytes.
pub open spec fn atom(value: Seq<char>) -> Seq<char> {
    decimal(utf8_len(value)) + seq![':'] + value
}

pub open spec fn bool_text(b: bool) -> Seq<char> {
    if b {
        "true"@
    } else {
        "false"@
    }
}

/// `|` then the identifier's atom, or `|-` when there is none.
pub open spec fn optional_identifier(identifier: Option<Identifier>) -> Seq<char> {
    match identifier {
        Some(i) => seq!['|'] + atom(i@),
        None => "|-"@,
    }
}

pub open spec fn primitive_name(p: PrimitiveType) -> Seq<char> {
    match p {
        PrimitiveType::Boolean => "Boolean"@,
        PrimitiveType::Byte => "Byte"@,
        PrimitiveType::Octet => "Octet"@,
        PrimitiveType::Short => "Short"@,
        PrimitiveType::UnsignedShort => "UnsignedShort"@,
        PrimitiveType::Long => "Long"@,
        PrimitiveType::UnsignedLong => "UnsignedLong"@,
        PrimitiveType::LongLong => "LongLong"@,
        PrimitiveType::UnsignedLongLong => "UnsignedLongLong"@,
        PrimitiveType::Float => "Float"@,
        PrimitiveType::UnrestrictedFloat => "UnrestrictedFloat"@,
        PrimitiveType::Double => "Double"@,
        PrimitiveType::UnrestrictedDouble => "UnrestrictedDouble"@,
    }
}

pub open spec fn string_type_name(s: StringType) -> Seq<char> {
    match s {
        StringType::DomString => "DomString"@,
        StringType::ByteString => "ByteString"@,
        StringType::UsvString => "UsvString"@,
    }
}

/// The snapshot text of a type.
pub open spec fn type_text(t: WebIdlType) -> Seq<char>
    decreases t,
{
    match t {
        WebIdlType::Any => "any"@,
        WebIdlType::Primitive(p) => "primitive:"@ + primitive_name(p),
        WebIdlType::String(s) => "string:"@ + string_type_name(s),
        WebIdlType::Object => "object"@,
        WebIdlType::Symbol => "symbol"@,
        WebIdlType::Undefined => "undefined"@,
        WebIdlType::Named(i) => "named:"@ + atom(i@),
        WebIdlType::Sequence(inner) => "sequence"@ + seq!['<'] + type_text(*inner) + seq!['>'],
        WebIdlType::FrozenArray(inner) => "frozen-array"@ + seq!['<'] + type_text(*inner) + seq![
            '>',
        ],
        WebIdlType::Promise(inner) => "promise"@ + seq!['<'] + type_text(*inner) + seq!['>'],
        WebIdlType::Record { key, value } => "record:"@ + string_type_name(key) + seq!['<']
            + type_text(*value) + seq!['>'],
        WebIdlType::Union(members) => "union<"@ + union_members_text(members@) + seq!['>'],
        WebIdlType::Nullable(inner) => "nullable"@ + seq!['<'] + type_text(*inner) + seq!['>'],
    }
}

/// Each union member's text followed by `;`.
pub open spec fn union_members_text(members: Seq<WebIdlType>) -> Seq<char>
    decreases members,
{
    if members.len() == 0 {
        Seq::empty()
    } else {
        union_members_text(members.drop_last()) + type_text(members.last()) + seq![';']
    }
}

pub open spec fn argument_text(a: Argument) -> Seq<char> {
    "  argument|"@ + atom(a.name@) + seq!['|'] + type_text(a.value_type) + seq!['|'] + bool_text(
        a.optional,
    ) + seq!['|'] + bool_text(a.variadic) + seq!['\n']
}

pub open spec fn arguments_text(args: Seq<Argument>) -> Seq<char>
    decreases args.len(),
{
    if args.len() == 0 {
        Seq::empty()
    } else {
        arguments_text(args.drop_last()) + argument_text(args.last())
    }
}

pub open spec fn member_text(m: InterfaceMember) -> Seq<char> {
    match m {
        InterfaceMember::Attribute { name, value_type, readonly, static_ } => " attribute|"@
            + atom(name@) + seq!['|'] + type_text(value_type) + seq!['|'] + bool_text(readonly)
            + seq!['|'] + bool_text(static_) + seq!['\n'],
        InterfaceMember::Operation { name, return_type, arguments, static_ } => " operation|"@
            + optional_identifier(name) + seq!['|'] + type_text(return_type) + seq!['|']
            + bool_text(static_) + seq!['\n'] + arguments_text(arguments@),
    }
}

pub open spec fn members_text(members: Seq<InterfaceMember>) -> Seq<char>
    decreases members.len(),
{
    if members.len() == 0 {
        Seq::empty()
    } else {
        members_text(members.drop_last()) + member_text(members.last())
    }
}

pub open spec fn dictionary_member_text(m: DictionaryMember) -> Seq<char> {
    " dictionary-member|"@ + atom(m.name@) + seq!['|'] + type_text(m.value_type) + seq!['|']
        + bool_text(m.required) + seq!['\n']
}

pub open spec fn dictionary_members_text(members: Seq<DictionaryMember>) -> Seq<char>
    decreases members.len(),
{
    if members.len() == 0 {
        Seq::empty()
    } else {
        dictionary_members_text(members.drop_last()) + dictionary_member_text(members.last())
    }
}

pub open spec fn enum_values_text(values: Seq<String>) -> Seq<char>
    decreases values.len(),
{
    if values.len() == 0 {
        Seq::empty()
    } else {
        enum_values_text(values.drop_last()) + atom(values.last()@)
    }
}

/// The snapshot text of one definition.
pub open spec fn definition_text(d: Definition) -> Seq<char> {
    match d {
        Definition::Interface(i) => "interface|"@ + atom(i.name@) + optional_identifier(i.inherits)
            + seq!['|'] + bool_text(i.partial) + seq!['|'] + bool_text(i.mixin) + seq!['\n']
            + members_text(i.members@),
        Definition::Dictionary(d) => "dictionary|"@ + atom(d.name@) + optional_identifier(
            d.inherits,
        ) + seq!['|'] + bool_text(d.partial) + seq!['\n'] + dictionary_members_text(d.members@),
        Definition::Enum(e) => "enum|"@ + atom(e.name@) + seq!['|'] + enum_values_text(e.values@)
            + seq!['\n'],
        Definition::Typedef(t) => "typedef|"@ + atom(t.name@) + seq!['|'] + type_text(t.value_type)
            + seq!['\n'],
        Definition::Includes(i) => "includes|"@ + atom(i.target@) + seq!['|'] + atom(i.mixin@)
            + seq!['\n'],
    }
}

pub open spec fn definitions_text(ds: Seq<Definition>) -> Seq<char>
    decreases ds.len(),
{
    if ds.len() == 0 {
        Seq::empty()
    } else {
        definitions_text(ds.drop_last()) + definition_text(ds.last())
    }
}

pub open spec fn level_name(l: DiagnosticLevel) -> Seq<char> {
    match l {
        DiagnosticLevel::Warning => "Warning"@,
        DiagnosticLevel::Error => "Error"@,
    }
}

pub open spec fn diagnostic_text(d: WebIdlDiagnostic) -> Seq<char> {
    "diagnostic|"@ + level_name(d.level) + seq!['|'] + match d.span {
        Some(span) => decimal(span.start as nat) + seq![':'] + decimal(span.end as nat) + seq!['|'],
        None => "-|"@,
    } + atom(d.message@) + seq!['\n']
}

pub open spec fn diagnostics_text(ds: Seq<WebIdlDiagnostic>) -> Seq<char>
    decreases ds.len(),
{
    if ds.len() == 0 {
        Seq::empty()
    } else {
        diagnostics_text(ds.drop_last()) + diagnostic_text(ds.last())
    }
}

/// The snapshot of a module: every definition, then every diagnostic.
pub open spec fn module_text(definitions: Seq<Definition>, diagnostics: Seq<WebIdlDiagnostic>) -> Seq<
    char,
> {
    definitions_text(definitions) + diagnostics_text(diagnostics)
}

fn push_bool(out: &mut String, b: bool)
    ensures
        final(out)@ == old(out)@ + bool_text(b),
{
    if b {
        push_str(out, "true");
    } else {
        push_str(out, "false");
    }
}

fn push_optional_identifier(out: &mut String, identifier: &Option<Identifier>)
    ensures
        final(out)@ == old(out)@ + optional_identifier(*identifier),
{
    match identifier {
        Some(i) => {
            push_char(out, '|');
            push_counted(out, i.as_str());
        },
        None => push_str(out, "|-"),
    }
}

fn primitive_label(p: PrimitiveType) -> (r: &'static str)
    ensures
        r@ == primitive_name(p),
{
    match p {
        PrimitiveType::Boolean => "Boolean",
        PrimitiveType::Byte => "Byte",
        PrimitiveType::Octet => "Octet",
        PrimitiveType::Short => "Short",
        PrimitiveType::UnsignedShort => "UnsignedShort",
        PrimitiveType::Long => "Long",
        PrimitiveType::UnsignedLong => "UnsignedLong",
        PrimitiveType::LongLong => "LongLong",
        PrimitiveType::UnsignedLongLong => "UnsignedLongLong",
        PrimitiveType::Float => "Float",
        PrimitiveType::UnrestrictedFloat => "UnrestrictedFloat",
        PrimitiveType::Double => "Double",
        PrimitiveType::UnrestrictedDouble => "UnrestrictedDouble",
    }
}

fn string_type_label(s: StringType) -> (r: &'static str)
    ensures
        r@ == string_type_name(s),
{
    match s {
        StringType::DomString => "DomString",
        StringType::ByteString => "ByteString",
        StringType::UsvString => "UsvString",
    }
}

fn push_wrapped(out: &mut String, label: &str, inner: &WebIdlType)
    ensures
        final(out)@ == old(out)@ + label@ + seq!['<'] + type_text(*inner) + seq!['>'],
    decreases inner, 1nat,
{
    push_str(out, label);
    push_char(out, '<');
    push_type(out, inner);
    push_char(out, '>');
}

fn push_type(out: &mut String, t: &WebIdlType)
    ensures
        final(out)@ == old(out)@ + type_text(*t),
    decreases t, 0nat,
{
    match t {
        WebIdlType::Any => push_str(out, "any"),
        WebIdlType::Primitive(p) => {
            push_str(out, "primitive:");
            push_str(out, primitive_label(*p));
        },
        WebIdlType::String(s) => {
            push_str(out, "string:");
            push_str(out, string_type_label(*s));
        },
        WebIdlType::Object => push_str(out, "object"),
        WebIdlType::Symbol => push_str(out, "symbol"),
        WebIdlType::Undefined => push_str(out, "undefined"),
        WebIdlType::Named(i) => {
            push_str(out, "named:");
            push_counted(out, i.as_str());
        },
        WebIdlType::Sequence(inner) => push_wrapped(out, "sequence", inner),
        WebIdlType::FrozenArray(inner) => push_wrapped(out, "frozen-array", inner),
        WebIdlType::Promise(inner) => push_wrapped(out, "promise", inner),
        WebIdlType::Record { key, value } => {
            push_str(out, "record:");
            push_str(out, string_type_label(*key));
            push_char(out, '<');
            push_type(out, value);
            push_char(out, '>');
        },
        WebIdlType::Union(members) => {
            push_str(out, "union<");
            let ghost start = out@;
            let mut i: usize = 0;
            while i < members.len()
                invariant
                    0 <= i <= members@.len(),
                    *t == WebIdlType::Union(*members),
                    out@ == start + union_members_text(members@.take(i as int)),
                decreases members@.len() - i,
            {
                proof {
                    broadcast use vstd::std_specs::vec::axiom_vec_index_decreases;
                    assert(decreases_to!(*t => (*t)->Union_0));
                    assert(decreases_to!(*members => members[i as int]));
                }
                push_type(out, &members[i]);
                push_char(out, ';');
                proof {
                    let next = members@.take(i + 1);
                    assert(next.drop_last() =~= members@.take(i as int));
                    assert(next.last() == members@[i as int]);
                }
                i = i + 1;
            }
            assert(members@.take(members@.len() as int) =~= members@);
            push_char(out, '>');
        },
        WebIdlType::Nullable(inner) => push_wrapped(out, "nullable", inner),
    }
}

fn push_argument(out: &mut String, argument: &Argument)
    ensures
        final(out)@ == old(out)@ + argument_text(*argument),
{
    push_str(out, "  argument|");
    push_counted(out, argument.name.as_str());
    push_char(out, '|');
    push_type(out, &argument.value_type);
    push_char(out, '|');
    push_bool(out, argument.optional);
    push_char(out, '|');
    push_bool(out, argument.variadic);
    push_char(out, '\n');
    assert(out@ =~= old(out)@ + argument_text(*argument));
}

fn push_arguments(out: &mut String, arguments: &Vec<Argument>)
    ensures
        final(out)@ == old(out)@ + arguments_text(arguments@),
{
    let ghost start = out@;
    let mut i: usize = 0;
    while i < arguments.len()
        invariant
            0 <= i <= arguments@.len(),
            out@ == start + arguments_text(arguments@.take(i as int)),
        decreases arguments@.len() - i,
    {
        let ghost before = out@;
        push_argument(out, &arguments[i]);
        proof {
            let next = arguments@.take(i + 1);
            assert(next.drop_last() =~= arguments@.take(i as int));
            assert(arguments_text(next) == arguments_text(arguments@.take(i as int))
                + argument_text(arguments@[i as int]));
            assert(out@ =~= start + arguments_text(next));
        }
        i = i + 1;
    }
    assert(arguments@.take(arguments@.len() as int) =~= arguments@);
}

fn push_member(out: &mut String, member: &InterfaceMember)
    ensures
        final(out)@ == old(out)@ + member_text(*member),
{
    match member {
        InterfaceMember::Attribute { name, value_type, readonly, static_ } => {
            push_str(out, " attribute|");
            push_counted(out, name.as_str());
            push_char(out, '|');
            push_type(out, value_type);
            push_char(out, '|');
            push_bool(out, *readonly);
            push_char(out, '|');
            push_bool(out, *static_);
            push_char(out, '\n');
        },
        InterfaceMember::Operation { name, return_type, arguments, static_ } => {
            push_str(out, " operation|");
            push_optional_identifier(out, name);
            push_char(out, '|');
            push_type(out, return_type);
            push_char(out, '|');
            push_bool(out, *static_);
            push_char(out, '\n');
            push_arguments(out, arguments);
        },
    }
}

fn push_interface_header(out: &mut String, interface: &InterfaceDefinition)
    ensures
        final(out)@ == old(out)@ + "interface|"@ + atom(interface.name@) + optional_identifier(
            interface.inherits,
        ) + seq!['|'] + bool_text(interface.partial) + seq!['|'] + bool_text(interface.mixin)
            + seq!['\n'],
{
    push_str(out, "interface|");
    push_counted(out, interface.name.as_str());
    push_optional_identifier(out, &interface.inherits);
    push_char(out, '|');
    push_bool(out, interface.partial);
    push_char(out, '|');
    push_bool(out, interface.mixin);
    push_char(out, '\n');
}

fn push_members(out: &mut String, members: &Vec<InterfaceMember>)
    ensures
        final(out)@ == old(out)@ + members_text(members@),
{
    let ghost start = out@;
    let mut i: usize = 0;
    while i < members.len()
        invariant
            0 <= i <= members@.len(),
            out@ == start + members_text(members@.take(i as int)),
        decreases members@.len() - i,
    {
        push_member(out, &members[i]);
        proof {
            let next = members@.take(i + 1);
            assert(next.drop_last() =~= members@.take(i as int));
            assert(members_text(next) == members_text(members@.take(i as int)) + member_text(
                members@[i as int],
            ));
            assert(out@ =~= start + members_text(next));
        }
        i = i + 1;
    }
    assert(members@.take(members@.len() as int) =~= members@);
}

fn push_interface(out: &mut String, interface: &InterfaceDefinition)
    ensures
        final(out)@ == old(out)@ + definition_text(Definition::Interface(*interface)),
{
    push_interface_header(out, interface);
    push_members(out, &interface.members);
    assert(out@ =~= old(out)@ + definition_text(Definition::Interface(*interface)));
}

#[verifier::spinoff_prover]
#[verifier::rlimit(30)]
fn push_dictionary(out: &mut String, dictionary: &DictionaryDefinition)
    ensures
        final(out)@ == old(out)@ + definition_text(Definition::Dictionary(*dictionary)),
{
    push_str(out, "dictionary|");
    push_counted(out, dictionary.name.as_str());
    push_optional_identifier(out, &dictionary.inherits);
    push_char(out, '|');
    push_bool(out, dictionary.partial);
    push_char(out, '\n');
    let ghost start = out@;
    let mut i: usize = 0;
    while i < dictionary.members.len()
        invariant
            0 <= i <= dictionary.members@.len(),
            out@ == start + dictionary_members_text(dictionary.members@.take(i as int)),
        decreases dictionary.members@.len() - i,
    {
        let member = &dictionary.members[i];
        push_str(out, " dictionary-member|");
        push_counted(out, member.name.as_str());
        push_char(out, '|');
        push_type(out, &member.value_type);
        push_char(out, '|');
        push_bool(out, member.required);
        push_char(out, '\n');
        proof {
            let next = dictionary.members@.take(i + 1);
            assert(next.drop_last() =~= dictionary.members@.take(i as int));
            assert(dictionary_members_text(next) == dictionary_members_text(
                dictionary.members@.take(i as int),
            ) + dictionary_member_text(dictionary.members@[i as int]));
        }
        i = i + 1;
    }
    assert(dictionary.members@.take(dictionary.members@.len() as int) =~= dictionary.members@);
}

fn push_enum(out: &mut String, enum_definition: &EnumDefinition)
    ensures
        final(out)@ == old(out)@ + definition_text(Definition::Enum(*enum_definition)),
{
    push_str(out, "enum|");
    push_counted(out, enum_definition.name.as_str());
    push_char(out, '|');
    let ghost start = out@;
    let mut i: usize = 0;
    while i < enum_definition.values.len()
        invariant
            0 <= i <= enum_definition.values@.len(),
            out@ == start + enum_values_text(enum_definition.values@.take(i as int)),
        decreases enum_definition.values@.len() - i,
    {
        push_counted(out, enum_definition.values[i].as_str());
        proof {
            let next = enum_definition.values@.take(i + 1);
            assert(next.drop_last() =~= enum_definition.values@.take(i as int));
        }
        i = i + 1;
    }
    assert(enum_definition.values@.take(enum_definition.values@.len() as int)
        =~= enum_definition.values@);
    push_char(out, '\n');
}

fn push_definition(out: &mut String, definition: &Definition)
    ensures
        final(out)@ == old(out)@ + definition_text(*definition),
{
    match definition {
        Definition::Interface(interface) => push_interface(out, interface),
        Definition::Dictionary(dictionary) => push_dictionary(out, dictionary),
        Definition::Enum(enum_definition) => push_enum(out, enum_definition),
        Definition::Typedef(typedef) => {
            push_str(out, "typedef|");
            push_counted(out, typedef.name.as_str());
            push_char(out, '|');
            push_type(out, &typedef.value_type);
            push_char(out, '\n');
        },
        Definition::Includes(includes) => {
            push_str(out, "includes|");
            push_counted(out, includes.target.as_str());
            push_char(out, '|');
            push_counted(out, includes.mixin.as_str());
            push_char(out, '\n');
        },
    }
}

fn push_diagnostic(out: &mut String, diagnostic: &WebIdlDiagnostic)
    ensures
        final(out)@ == old(out)@ + diagnostic_text(*diagnostic),
{
    push_str(out, "diagnostic|");
    match diagnostic.level {
        DiagnosticLevel::Warning => push_str(out, "Warning"),
        DiagnosticLevel::Error => push_str(out, "Error"),
    }
    push_char(out, '|');
    match diagnostic.span {
        Some(span) => {
            push_decimal(out, span.start);
            push_char(out, ':');
            push_decimal(out, span.end);
            push_char(out, '|');
        },
        None => push_str(out, "-|"),
    }
    push_counted(out, diagnostic.message.as_str());
    push_char(out, '\n');
}

/// Appends the snapshot text of a list of definitions.
pub(crate) fn push_definitions(out: &mut String, definitions: &Vec<Definition>)
    ensures
        final(out)@ == old(out)@ + definitions_text(definitions@),
{
    let ghost start = out@;
    let mut i: usize = 0;
    while i < definitions.len()
        invariant
            0 <= i <= definitions@.len(),
            out@ == start + definitions_text(definitions@.take(i as int)),
        decreases definitions@.len() - i,
    {
        push_definition(out, &definitions[i]);
        proof {
            let next = definitions@.take(i + 1);
            assert(next.drop_last() =~= definitions@.take(i as int));
        }
        i = i + 1;
    }
    assert(definitions@.take(definitions@.len() as int) =~= definitions@);
}

impl WebIdlModule {
    /// A deterministic text rendering of every definition and diagnostic.
    pub fn snapshot(&self) -> (r: String)
        ensures
            r@ == module_text(self.definitions@, self.diagnostics@),
    {
        let mut output = String::new();
        push_definitions(&mut output, &self.definitions);
        let ghost start = output@;
        let mut i: usize = 0;
        while i < self.diagnostics.len()
            invariant
                0 <= i <= self.diagnostics@.len(),
                start == definitions_text(self.definitions@),
                output@ == start + diagnostics_text(self.diagnostics@.take(i as int)),
            decreases self.diagnostics@.len() - i,
        {
            push_diagnostic(&mut output, &self.diagnostics[i]);
            proof {
                let next = self.diagnostics@.take(i + 1);
                assert(next.drop_last() =~= self.diagnostics@.take(i as int));
            }
            i = i + 1;
        }
        assert(self.diagnostics@.take(self.diagnostics@.len() as int) =~= self.diagnostics@);
        output
    }
}

/// A WebIDL parser that produces the normalized representation. What a
/// frontend gives for a source is stated by its `parses_to`.
pub trait WebIdlFrontend {
    /// Whether `r` is what this frontend gives for the source. A frontend
    /// that does not state its results keeps this default, which claims
    /// nothing.
    open spec fn parses_to(&self, source: Seq<char>, r: Result<WebIdlModule, WebIdlError>) -> bool {
        true
    }

    fn parse(&self, source: &str) -> (r: Result<WebIdlModule, WebIdlError>)
        ensures
            self.parses_to(source@, r),
    ;
}

/// Parses `source` with the given frontend: the frontend's result for that
/// very source.
pub fn parse_with<F: WebIdlFrontend>(frontend: &F, source: &str) -> (r: Result<WebIdlModule, WebIdlError>)
    ensures
        frontend.parses_to(source@, r),
{
    frontend.parse(source)
}

/// The snapshot of a module depends only on the module, so equal modules
/// render to equal text, and appending a definition appends its text.
pub proof fn lemma_snapshot_is_compositional(definitions: Seq<Definition>, d: Definition)
    ensures
        definitions_text(definitions.push(d)) == definitions_text(definitions) + definition_text(d),
{
    assert(definitions.push(d).drop_last() =~= definitions);
}

} // verus!
