//! The standards WebIDL frontend: the `weedle` parser reads the source into
//! a syntax tree, which this module takes as plain values and normalizes,
//! fail-closed, into the library's WebIDL representation.
//!
//! Normalization refuses, rather than drops, what the representation cannot
//! hold: extended attributes anywhere, constants, constructors, collection
//! members, stringifiers, special operations, default values, callbacks,
//! namespaces and non-string record keys. Definitions keep source order.
use crate::text::{is_blank, push_str, str_is_blank, utf8_byte_len, utf8_len};
use crate::webidl::{
    type_model, Argument, Definition, DictionaryDefinition, DictionaryMember, EnumDefinition,
    Identifier, IncludesDefinition, InterfaceDefinition, InterfaceMember, PrimitiveType,
    SourceSpan, StringType, TypeModel, TypedefDefinition, WebIdlError, WebIdlErrorKind, WebIdlFrontend,
    WebIdlModule, WebIdlType,
};
use vstd::prelude::*;
use weedle::argument::Argument as WeedleArgument;
use weedle::common::Identifier as WeedleIdentifier;
use weedle::dictionary::DictionaryMember as WeedleDictionaryMember;
use weedle::interface::InterfaceMember as WeedleInterfaceMember;
use weedle::mixin::MixinMember as WeedleMixinMember;
use weedle::types::NonAnyType as WeedleNonAnyType;
use weedle::types::ReturnType as WeedleReturnType;
use weedle::types::Type as WeedleType;
use weedle::types::UnionMemberType as WeedleUnionMemberType;
use weedle::Definition as WeedleDefinition;
use weedle::Parse;
use weedle::interface::StringifierOrInheritOrStatic as WeedleAttributeModifier;
use weedle::interface::StringifierOrStatic as WeedleOperationModifier;
use weedle::types::FloatingPointType as WeedleFloatingPointType;
use weedle::types::IntegerType as WeedleIntegerType;
use weedle::types::MayBeNull as WeedleMayBeNull;
use weedle::types::RecordType as WeedleRecordType;

verus! {

// ----- the syntax tree, as plain values --------------------------------------

#[derive(Clone, Copy, Debug, PartialEq, Eq, Structural)]
pub enum IntegerWidth {
    Short,
    Long,
    LongLong,
}

/// The buffer and error types that WebIDL names by keyword.
#[derive(Clone, Copy, Debug, PartialEq, Eq, Structural)]
pub enum BufferType {
    Error,
    ArrayBuffer,
    DataView,
    Int8Array,
    Int16Array,
    Int32Array,
    Uint8Array,
    Uint16Array,
    Uint32Array,
    Uint8ClampedArray,
    Float32Array,
    Float64Array,
    ArrayBufferView,
    BufferSource,
}

#[derive(Clone, Copy, Debug, PartialEq, Eq, Structural)]
pub enum SyntaxRecordKey {
    ByteString,
    DomString,
    UsvString,
    Other,
}

/// A type as written. `Undefined` stands only where a return type may.
#[derive(Debug)]
pub enum SyntaxType {
    Any,
    Undefined,
    Integer { width: IntegerWidth, unsigned: bool, nullable: bool },
    FloatingPoint { double: bool, unrestricted: bool, nullable: bool },
    Boolean { nullable: bool },
    Byte { nullable: bool },
    Octet { nullable: bool },
    String { kind: StringType, nullable: bool },
    Object { nullable: bool },
    Symbol { nullable: bool },
    Buffer { kind: BufferType, nullable: bool },
    Named { name: String, nullable: bool },
    Sequence { item: Box<SyntaxType>, nullable: bool },
    FrozenArray { item: Box<SyntaxType>, nullable: bool },
    ObservableArray,
    Promise { item: Box<SyntaxType> },
    Record { key: SyntaxRecordKey, value: Box<SyntaxType>, nullable: bool },
    Union { members: Vec<SyntaxUnionMember>, nullable: bool },
}

/// A member of a union type, and whether it carries extended attributes.
#[derive(Debug)]
pub struct SyntaxUnionMember {
    pub attributed: bool,
    pub member: SyntaxType,
}

/// An operation argument as written: a single (possibly optional, possibly
/// defaulted) argument whose type may carry extended attributes, or a
/// variadic one.
#[derive(Debug)]
pub struct SyntaxArgument {
    pub attributed: bool,
    pub variadic: bool,
    pub optional: bool,
    pub has_default: bool,
    pub name: String,
    pub type_attributed: bool,
    pub value_type: SyntaxType,
}

#[derive(Clone, Copy, Debug, PartialEq, Eq, Structural)]
pub enum AttributeModifier {
    Plain,
    Static,
    Stringifier,
    Inherit,
}

#[derive(Clone, Copy, Debug, PartialEq, Eq, Structural)]
pub enum OperationModifier {
    Plain,
    Static,
    Stringifier,
}

/// A member of an interface as written.
#[derive(Debug)]
pub enum SyntaxMember {
    Attribute {
        attributed: bool,
        modifier: AttributeModifier,
        readonly: bool,
        name: String,
        type_attributed: bool,
        value_type: SyntaxType,
    },
    Operation {
        attributed: bool,
        special: bool,
        modifier: OperationModifier,
        name: Option<String>,
        return_type: SyntaxType,
        arguments: Vec<SyntaxArgument>,
    },
    Const,
    Constructor,
    Collection,
    Stringifier,
}

/// A member of an interface mixin as written.
#[derive(Debug)]
pub enum SyntaxMixinMember {
    Attribute {
        attributed: bool,
        stringifier: bool,
        readonly: bool,
        name: String,
        type_attributed: bool,
        value_type: SyntaxType,
    },
    Operation {
        attributed: bool,
        stringifier: bool,
        name: Option<String>,
        return_type: SyntaxType,
        arguments: Vec<SyntaxArgument>,
    },
    Const,
    Stringifier,
}

/// A dictionary member as written.
#[derive(Debug)]
pub struct SyntaxDictionaryMember {
    pub attributed: bool,
    pub required: bool,
    pub has_default: bool,
    pub name: String,
    pub value_type: SyntaxType,
}

/// A definition as written.
#[derive(Debug)]
pub enum SyntaxDefinition {
    Interface { attributed: bool, name: String, inherits: Option<String>, members: Vec<SyntaxMember> },
    PartialInterface { attributed: bool, name: String, members: Vec<SyntaxMember> },
    InterfaceMixin { attributed: bool, name: String, members: Vec<SyntaxMixinMember> },
    PartialInterfaceMixin { attributed: bool, name: String, members: Vec<SyntaxMixinMember> },
    Dictionary {
        attributed: bool,
        name: String,
        inherits: Option<String>,
        members: Vec<SyntaxDictionaryMember>,
    },
    PartialDictionary { attributed: bool, name: String, members: Vec<SyntaxDictionaryMember> },
    Enum { attributed: bool, name: String, values: Vec<String> },
    Typedef { attributed: bool, name: String, type_attributed: bool, value_type: SyntaxType },
    Includes { attributed: bool, target: String, mixin: String },
    Callback,
    CallbackInterface,
    Namespace,
    Implements,
}

// ----- the models of the normalized representation ---------------------------

pub struct ArgumentModel {
    pub name: Seq<char>,
    pub value_type: TypeModel,
    pub optional: bool,
    pub variadic: bool,
}

pub enum MemberModel {
    Attribute { name: Seq<char>, value_type: TypeModel, readonly: bool, static_: bool },
    Operation {
        name: Option<Seq<char>>,
        return_type: TypeModel,
        arguments: Seq<ArgumentModel>,
        static_: bool,
    },
}

pub struct DictionaryMemberModel {
    pub name: Seq<char>,
    pub value_type: TypeModel,
    pub required: bool,
}

pub enum DefinitionModel {
    Interface {
        name: Seq<char>,
        inherits: Option<Seq<char>>,
        members: Seq<MemberModel>,
        partial: bool,
        mixin: bool,
    },
    Dictionary {
        name: Seq<char>,
        inherits: Option<Seq<char>>,
        members: Seq<DictionaryMemberModel>,
        partial: bool,
    },
    Enum { name: Seq<char>, values: Seq<Seq<char>> },
    Typedef { name: Seq<char>, value_type: TypeModel },
    Includes { target: Seq<char>, mixin: Seq<char> },
}

pub open spec fn opt_name(o: Option<Identifier>) -> Option<Seq<char>> {
    match o {
        Some(i) => Some(i@),
        None => None,
    }
}

pub open spec fn opt_string(o: Option<String>) -> Option<Seq<char>> {
    match o {
        Some(s) => Some(s@),
        None => None,
    }
}

pub open spec fn argument_model(a: Argument) -> ArgumentModel {
    ArgumentModel {
        name: a.name@,
        value_type: type_model(a.value_type),
        optional: a.optional,
        variadic: a.variadic,
    }
}

pub open spec fn member_model(m: InterfaceMember) -> MemberModel {
    match m {
        InterfaceMember::Attribute { name, value_type, readonly, static_ } => MemberModel::Attribute {
            name: name@,
            value_type: type_model(value_type),
            readonly,
            static_,
        },
        InterfaceMember::Operation { name, return_type, arguments, static_ } => MemberModel::Operation {
            name: opt_name(name),
            return_type: type_model(return_type),
            arguments: arguments@.map_values(argument_view()),
            static_,
        },
    }
}

pub open spec fn dictionary_member_model(m: DictionaryMember) -> DictionaryMemberModel {
    DictionaryMemberModel { name: m.name@, value_type: type_model(m.value_type), required: m.required }
}

pub open spec fn argument_view() -> spec_fn(Argument) -> ArgumentModel {
    |a: Argument| argument_model(a)
}

pub open spec fn member_view() -> spec_fn(InterfaceMember) -> MemberModel {
    |m: InterfaceMember| member_model(m)
}

pub open spec fn dictionary_member_view() -> spec_fn(DictionaryMember) -> DictionaryMemberModel {
    |m: DictionaryMember| dictionary_member_model(m)
}

pub open spec fn string_view() -> spec_fn(String) -> Seq<char> {
    |v: String| v@
}

pub open spec fn definition_view() -> spec_fn(Definition) -> DefinitionModel {
    |d: Definition| definition_model(d)
}

pub open spec fn definition_model(d: Definition) -> DefinitionModel {
    match d {
        Definition::Interface(x) => DefinitionModel::Interface {
            name: x.name@,
            inherits: opt_name(x.inherits),
            members: x.members@.map_values(member_view()),
            partial: x.partial,
            mixin: x.mixin,
        },
        Definition::Dictionary(x) => DefinitionModel::Dictionary {
            name: x.name@,
            inherits: opt_name(x.inherits),
            members: x.members@.map_values(dictionary_member_view()),
            partial: x.partial,
        },
        Definition::Enum(x) => DefinitionModel::Enum {
            name: x.name@,
            values: x.values@.map_values(string_view()),
        },
        Definition::Typedef(x) => DefinitionModel::Typedef { name: x.name@, value_type: type_model(x.value_type) },
        Definition::Includes(x) => DefinitionModel::Includes { target: x.target@, mixin: x.mixin@ },
    }
}

// ----- what normalization gives ------------------------------------------------

/// Why normalization refuses: the kind and message of the error.
pub struct Refusal {
    pub kind: WebIdlErrorKind,
    pub message: Seq<char>,
}

/// The refusal of a construct.
pub open spec fn unsupported_refusal(construct: Seq<char>) -> Refusal {
    Refusal { kind: WebIdlErrorKind::UnsupportedDefinition, message: "unsupported WebIDL construct: "@ + construct }
}

/// The refusal of extended attributes in a context.
pub open spec fn attributes_refusal(context: Seq<char>) -> Refusal {
    unsupported_refusal("extended attributes on "@ + context)
}

/// A name, or the refusal of an empty one.
pub open spec fn ident_norm(name: String) -> Result<Seq<char>, Refusal> {
    if name@.len() == 0 {
        Err(Refusal { kind: WebIdlErrorKind::InvalidIdentifier, message: "WebIDL identifiers must not be empty"@ })
    } else {
        Ok(name@)
    }
}

pub open spec fn opt_ident_norm(name: Option<String>) -> Result<Option<Seq<char>>, Refusal> {
    match name {
        None => Ok(None),
        Some(n) => match ident_norm(n) {
            Ok(x) => Ok(Some(x)),
            Err(e) => Err(e),
        },
    }
}

pub open spec fn nullable_model(m: TypeModel, nullable: bool) -> TypeModel {
    if nullable {
        TypeModel::Nullable(Box::new(m))
    } else {
        m
    }
}

pub open spec fn integer_primitive(width: IntegerWidth, unsigned: bool) -> PrimitiveType {
    match width {
        IntegerWidth::Short => if unsigned { PrimitiveType::UnsignedShort } else { PrimitiveType::Short },
        IntegerWidth::Long => if unsigned { PrimitiveType::UnsignedLong } else { PrimitiveType::Long },
        IntegerWidth::LongLong => if unsigned {
            PrimitiveType::UnsignedLongLong
        } else {
            PrimitiveType::LongLong
        },
    }
}

pub open spec fn float_primitive(double: bool, unrestricted: bool) -> PrimitiveType {
    if double {
        if unrestricted { PrimitiveType::UnrestrictedDouble } else { PrimitiveType::Double }
    } else {
        if unrestricted { PrimitiveType::UnrestrictedFloat } else { PrimitiveType::Float }
    }
}

pub open spec fn buffer_name(kind: BufferType) -> Seq<char> {
    match kind {
        BufferType::Error => "Error"@,
        BufferType::ArrayBuffer => "ArrayBuffer"@,
        BufferType::DataView => "DataView"@,
        BufferType::Int8Array => "Int8Array"@,
        BufferType::Int16Array => "Int16Array"@,
        BufferType::Int32Array => "Int32Array"@,
        BufferType::Uint8Array => "Uint8Array"@,
        BufferType::Uint16Array => "Uint16Array"@,
        BufferType::Uint32Array => "Uint32Array"@,
        BufferType::Uint8ClampedArray => "Uint8ClampedArray"@,
        BufferType::Float32Array => "Float32Array"@,
        BufferType::Float64Array => "Float64Array"@,
        BufferType::ArrayBufferView => "ArrayBufferView"@,
        BufferType::BufferSource => "BufferSource"@,
    }
}

pub open spec fn record_key_type(key: SyntaxRecordKey) -> StringType {
    match key {
        SyntaxRecordKey::ByteString => StringType::ByteString,
        SyntaxRecordKey::DomString => StringType::DomString,
        _ => StringType::UsvString,
    }
}

/// Wraps a normalized type, or passes a refusal on.
pub open spec fn wrap_norm(r: Result<TypeModel, Refusal>, f: spec_fn(TypeModel) -> TypeModel) -> Result<
    TypeModel,
    Refusal,
> {
    match r {
        Ok(m) => Ok(f(m)),
        Err(e) => Err(e),
    }
}

/// The normalized type of a written type, or why it is refused.
pub open spec fn type_norm(t: SyntaxType) -> Result<TypeModel, Refusal>
    decreases t, 0nat,
{
    match t {
        SyntaxType::Any => Ok(TypeModel::Any),
        SyntaxType::Undefined => Ok(TypeModel::Undefined),
        SyntaxType::Integer { width, unsigned, nullable } => Ok(
            nullable_model(TypeModel::Primitive(integer_primitive(width, unsigned)), nullable),
        ),
        SyntaxType::FloatingPoint { double, unrestricted, nullable } => Ok(
            nullable_model(TypeModel::Primitive(float_primitive(double, unrestricted)), nullable),
        ),
        SyntaxType::Boolean { nullable } => Ok(
            nullable_model(TypeModel::Primitive(PrimitiveType::Boolean), nullable),
        ),
        SyntaxType::Byte { nullable } => Ok(nullable_model(TypeModel::Primitive(PrimitiveType::Byte), nullable)),
        SyntaxType::Octet { nullable } => Ok(nullable_model(TypeModel::Primitive(PrimitiveType::Octet), nullable)),
        SyntaxType::String { kind, nullable } => Ok(nullable_model(TypeModel::String(kind), nullable)),
        SyntaxType::Object { nullable } => Ok(nullable_model(TypeModel::Object, nullable)),
        SyntaxType::Symbol { nullable } => Ok(nullable_model(TypeModel::Symbol, nullable)),
        SyntaxType::Buffer { kind, nullable } => Ok(nullable_model(TypeModel::Named(buffer_name(kind)), nullable)),
        SyntaxType::Named { name, nullable } => match ident_norm(name) {
            Ok(n) => Ok(nullable_model(TypeModel::Named(n), nullable)),
            Err(e) => Err(e),
        },
        SyntaxType::Sequence { item, nullable } => wrap_norm(
            type_norm(*item),
            |m: TypeModel| nullable_model(TypeModel::Sequence(Box::new(m)), nullable),
        ),
        SyntaxType::FrozenArray { item, nullable } => wrap_norm(
            type_norm(*item),
            |m: TypeModel| nullable_model(TypeModel::FrozenArray(Box::new(m)), nullable),
        ),
        SyntaxType::ObservableArray => Err(unsupported_refusal("ObservableArray types"@)),
        SyntaxType::Promise { item } => wrap_norm(type_norm(*item), |m: TypeModel| TypeModel::Promise(Box::new(m))),
        SyntaxType::Record { key, value, nullable } => if key is Other {
            Err(unsupported_refusal("non-string record key types"@))
        } else {
            wrap_norm(
                type_norm(*value),
                |m: TypeModel|
                    nullable_model(TypeModel::Record { key: record_key_type(key), value: Box::new(m) }, nullable),
            )
        },
        SyntaxType::Union { members, nullable } => {
            proof {
                broadcast use vstd::std_specs::vec::axiom_vec_decreases_to_view;
            }
            match union_norm(members@) {
                Ok(ms) => Ok(nullable_model(TypeModel::Union(ms), nullable)),
                Err(e) => Err(e),
            }
        },
    }
}

/// A union member: refused when it carries extended attributes.
pub open spec fn union_member_step(p: Seq<TypeModel>, m: SyntaxUnionMember, r: Result<TypeModel, Refusal>) -> Result<
    Seq<TypeModel>,
    Refusal,
> {
    if m.attributed {
        Err(attributes_refusal("union member type attributes"@))
    } else {
        match r {
            Ok(x) => Ok(p.push(x)),
            Err(e) => Err(e),
        }
    }
}

/// The normalized members of a union, in order, or the first refusal.
pub open spec fn union_norm(ms: Seq<SyntaxUnionMember>) -> Result<Seq<TypeModel>, Refusal>
    decreases ms, 1nat,
{
    if ms.len() == 0 {
        Ok(Seq::empty())
    } else {
        match union_norm(ms.drop_last()) {
            Err(e) => Err(e),
            Ok(p) => union_member_step(p, ms.last(), type_norm(ms.last().member)),
        }
    }
}

/// The normalized elements of a list, in order, or the first refusal.
pub open spec fn list_norm<A, B>(xs: Seq<A>, f: spec_fn(A) -> Result<B, Refusal>) -> Result<Seq<B>, Refusal>
    decreases xs.len(),
{
    if xs.len() == 0 {
        Ok(Seq::empty())
    } else {
        match list_norm(xs.drop_last(), f) {
            Err(e) => Err(e),
            Ok(p) => match f(xs.last()) {
                Ok(x) => Ok(p.push(x)),
                Err(e) => Err(e),
            },
        }
    }
}

/// A type that may carry extended attributes.
pub open spec fn attributed_type_norm(type_attributed: bool, t: SyntaxType) -> Result<TypeModel, Refusal> {
    if type_attributed {
        Err(attributes_refusal("type extended attributes"@))
    } else {
        type_norm(t)
    }
}

pub open spec fn argument_norm(a: SyntaxArgument) -> Result<ArgumentModel, Refusal> {
    if a.variadic {
        if a.attributed {
            Err(attributes_refusal("variadic operation argument"@))
        } else {
            match ident_norm(a.name) {
                Err(e) => Err(e),
                Ok(n) => match type_norm(a.value_type) {
                    Ok(t) => Ok(ArgumentModel { name: n, value_type: t, optional: false, variadic: true }),
                    Err(e) => Err(e),
                },
            }
        }
    } else if a.attributed {
        Err(attributes_refusal("operation argument"@))
    } else if a.has_default {
        Err(unsupported_refusal("operation argument default values"@))
    } else {
        match ident_norm(a.name) {
            Err(e) => Err(e),
            Ok(n) => match attributed_type_norm(a.type_attributed, a.value_type) {
                Ok(t) => Ok(ArgumentModel { name: n, value_type: t, optional: a.optional, variadic: false }),
                Err(e) => Err(e),
            },
        }
    }
}

pub open spec fn arguments_norm(args: Seq<SyntaxArgument>) -> Result<Seq<ArgumentModel>, Refusal> {
    list_norm(args, argument_step())
}

/// An operation, once its modifier has been read.
pub open spec fn operation_norm(
    name: Option<String>,
    return_type: SyntaxType,
    arguments: Seq<SyntaxArgument>,
    static_: bool,
) -> Result<MemberModel, Refusal> {
    match opt_ident_norm(name) {
        Err(e) => Err(e),
        Ok(n) => match type_norm(return_type) {
            Err(e) => Err(e),
            Ok(rt) => match arguments_norm(arguments) {
                Err(e) => Err(e),
                Ok(args) => Ok(MemberModel::Operation { name: n, return_type: rt, arguments: args, static_ }),
            },
        },
    }
}

/// An attribute, once its modifier has been read.
pub open spec fn attribute_norm(
    name: String,
    type_attributed: bool,
    value_type: SyntaxType,
    readonly: bool,
    static_: bool,
) -> Result<MemberModel, Refusal> {
    match ident_norm(name) {
        Err(e) => Err(e),
        Ok(n) => match attributed_type_norm(type_attributed, value_type) {
            Err(e) => Err(e),
            Ok(t) => Ok(MemberModel::Attribute { name: n, value_type: t, readonly, static_ }),
        },
    }
}

pub open spec fn member_norm(m: SyntaxMember) -> Result<MemberModel, Refusal> {
    match m {
        SyntaxMember::Attribute { attributed, modifier, readonly, name, type_attributed, value_type } => {
            if attributed {
                Err(attributes_refusal("interface attribute"@))
            } else if modifier is Stringifier || modifier is Inherit {
                Err(unsupported_refusal("stringifier/inherit attributes"@))
            } else {
                attribute_norm(name, type_attributed, value_type, readonly, modifier is Static)
            }
        },
        SyntaxMember::Operation { attributed, special, modifier, name, return_type, arguments } => {
            if attributed {
                Err(attributes_refusal("interface operation"@))
            } else if special {
                Err(unsupported_refusal("special getter/setter/deleter operations"@))
            } else if modifier is Stringifier {
                Err(unsupported_refusal("stringifier operations"@))
            } else {
                operation_norm(name, return_type, arguments@, modifier is Static)
            }
        },
        SyntaxMember::Const => Err(unsupported_refusal("interface constants"@)),
        SyntaxMember::Constructor => Err(unsupported_refusal("interface constructors"@)),
        SyntaxMember::Collection => Err(unsupported_refusal("collection interface members"@)),
        SyntaxMember::Stringifier => Err(unsupported_refusal("standalone stringifiers"@)),
    }
}

pub open spec fn mixin_member_norm(m: SyntaxMixinMember) -> Result<MemberModel, Refusal> {
    match m {
        SyntaxMixinMember::Attribute { attributed, stringifier, readonly, name, type_attributed, value_type } => {
            if attributed {
                Err(attributes_refusal("mixin attribute"@))
            } else if stringifier {
                Err(unsupported_refusal("stringifier mixin attributes"@))
            } else {
                attribute_norm(name, type_attributed, value_type, readonly, false)
            }
        },
        SyntaxMixinMember::Operation { attributed, stringifier, name, return_type, arguments } => {
            if attributed {
                Err(attributes_refusal("mixin operation"@))
            } else if stringifier {
                Err(unsupported_refusal("stringifier mixin operations"@))
            } else {
                operation_norm(name, return_type, arguments@, false)
            }
        },
        SyntaxMixinMember::Const => Err(unsupported_refusal("mixin constants"@)),
        SyntaxMixinMember::Stringifier => Err(unsupported_refusal("mixin stringifiers"@)),
    }
}

pub open spec fn members_norm(ms: Seq<SyntaxMember>) -> Result<Seq<MemberModel>, Refusal> {
    list_norm(ms, member_step())
}

pub open spec fn mixin_members_norm(ms: Seq<SyntaxMixinMember>) -> Result<Seq<MemberModel>, Refusal> {
    list_norm(ms, mixin_member_step())
}

pub open spec fn dictionary_member_norm(m: SyntaxDictionaryMember) -> Result<DictionaryMemberModel, Refusal> {
    if m.attributed {
        Err(attributes_refusal("dictionary member"@))
    } else if m.has_default {
        Err(unsupported_refusal("dictionary member default values"@))
    } else {
        match ident_norm(m.name) {
            Err(e) => Err(e),
            Ok(n) => match type_norm(m.value_type) {
                Ok(t) => Ok(DictionaryMemberModel { name: n, value_type: t, required: m.required }),
                Err(e) => Err(e),
            },
        }
    }
}

pub open spec fn dictionary_members_norm(ms: Seq<SyntaxDictionaryMember>) -> Result<
    Seq<DictionaryMemberModel>,
    Refusal,
> {
    list_norm(ms, dictionary_member_step())
}

/// An interface or mixin: its name, its parent, then its members.
pub open spec fn interface_norm(
    name: String,
    inherits: Option<String>,
    members: Result<Seq<MemberModel>, Refusal>,
    partial: bool,
    mixin: bool,
) -> Result<DefinitionModel, Refusal> {
    match ident_norm(name) {
        Err(e) => Err(e),
        Ok(n) => match opt_ident_norm(inherits) {
            Err(e) => Err(e),
            Ok(i) => match members {
                Ok(ms) => Ok(DefinitionModel::Interface { name: n, inherits: i, members: ms, partial, mixin }),
                Err(e) => Err(e),
            },
        },
    }
}

/// A dictionary: its name, its parent, then its members.
pub open spec fn dictionary_norm(
    name: String,
    inherits: Option<String>,
    members: Result<Seq<DictionaryMemberModel>, Refusal>,
    partial: bool,
) -> Result<DefinitionModel, Refusal> {
    match ident_norm(name) {
        Err(e) => Err(e),
        Ok(n) => match opt_ident_norm(inherits) {
            Err(e) => Err(e),
            Ok(i) => match members {
                Ok(ms) => Ok(DefinitionModel::Dictionary { name: n, inherits: i, members: ms, partial }),
                Err(e) => Err(e),
            },
        },
    }
}

/// The normalized definition of a written one, or why it is refused.
pub open spec fn definition_norm(d: SyntaxDefinition) -> Result<DefinitionModel, Refusal> {
    match d {
        SyntaxDefinition::Interface { attributed, name, inherits, members } => if attributed {
            Err(attributes_refusal("interface"@))
        } else {
            interface_norm(name, inherits, members_norm(members@), false, false)
        },
        SyntaxDefinition::PartialInterface { attributed, name, members } => if attributed {
            Err(attributes_refusal("partial interface"@))
        } else {
            interface_norm(name, None, members_norm(members@), true, false)
        },
        SyntaxDefinition::InterfaceMixin { attributed, name, members } => if attributed {
            Err(attributes_refusal("interface mixin"@))
        } else {
            interface_norm(name, None, mixin_members_norm(members@), false, true)
        },
        SyntaxDefinition::PartialInterfaceMixin { attributed, name, members } => if attributed {
            Err(attributes_refusal("partial interface mixin"@))
        } else {
            interface_norm(name, None, mixin_members_norm(members@), true, true)
        },
        SyntaxDefinition::Dictionary { attributed, name, inherits, members } => if attributed {
            Err(attributes_refusal("dictionary"@))
        } else {
            dictionary_norm(name, inherits, dictionary_members_norm(members@), false)
        },
        SyntaxDefinition::PartialDictionary { attributed, name, members } => if attributed {
            Err(attributes_refusal("partial dictionary"@))
        } else {
            dictionary_norm(name, None, dictionary_members_norm(members@), true)
        },
        SyntaxDefinition::Enum { attributed, name, values } => if attributed {
            Err(attributes_refusal("enum"@))
        } else {
            match ident_norm(name) {
                Err(e) => Err(e),
                Ok(n) => Ok(DefinitionModel::Enum { name: n, values: values@.map_values(string_view()) }),
            }
        },
        SyntaxDefinition::Typedef { attributed, name, type_attributed, value_type } => if attributed {
            Err(attributes_refusal("typedef"@))
        } else {
            match ident_norm(name) {
                Err(e) => Err(e),
                Ok(n) => match attributed_type_norm(type_attributed, value_type) {
                    Ok(t) => Ok(DefinitionModel::Typedef { name: n, value_type: t }),
                    Err(e) => Err(e),
                },
            }
        },
        SyntaxDefinition::Includes { attributed, target, mixin } => if attributed {
            Err(attributes_refusal("includes statement"@))
        } else {
            match ident_norm(target) {
                Err(e) => Err(e),
                Ok(t) => match ident_norm(mixin) {
                    Err(e) => Err(e),
                    Ok(m) => Ok(DefinitionModel::Includes { target: t, mixin: m }),
                },
            }
        },
        SyntaxDefinition::Callback => Err(unsupported_refusal("callback definitions"@)),
        SyntaxDefinition::CallbackInterface => Err(unsupported_refusal("callback interfaces"@)),
        SyntaxDefinition::Namespace => Err(unsupported_refusal("namespace definitions"@)),
        SyntaxDefinition::Implements => Err(unsupported_refusal("legacy implements statements"@)),
    }
}

/// The normalized definitions, in source order, or the first refusal.
pub open spec fn definitions_norm(ds: Seq<SyntaxDefinition>) -> Result<Seq<DefinitionModel>, Refusal> {
    list_norm(ds, definition_step())
}

pub open spec fn argument_step() -> spec_fn(SyntaxArgument) -> Result<ArgumentModel, Refusal> {
    |a: SyntaxArgument| argument_norm(a)
}

pub open spec fn member_step() -> spec_fn(SyntaxMember) -> Result<MemberModel, Refusal> {
    |m: SyntaxMember| member_norm(m)
}

pub open spec fn mixin_member_step() -> spec_fn(SyntaxMixinMember) -> Result<MemberModel, Refusal> {
    |m: SyntaxMixinMember| mixin_member_norm(m)
}

pub open spec fn dictionary_member_step() -> spec_fn(SyntaxDictionaryMember) -> Result<
    DictionaryMemberModel,
    Refusal,
> {
    |m: SyntaxDictionaryMember| dictionary_member_norm(m)
}

pub open spec fn definition_step() -> spec_fn(SyntaxDefinition) -> Result<DefinitionModel, Refusal> {
    |d: SyntaxDefinition| definition_norm(d)
}

/// An error reports exactly this refusal.
pub open spec fn reports(e: WebIdlError, why: Refusal) -> bool {
    e.kind == why.kind && e.message@ == why.message && e.span is None
}

// ----- facts about lists ---------------------------------------------------------

/// Normalizing one more element extends the normalized prefix.
pub proof fn lemma_list_norm_step<A, B>(xs: Seq<A>, f: spec_fn(A) -> Result<B, Refusal>, i: int)
    requires
        0 <= i < xs.len(),
    ensures
        list_norm(xs.take(i + 1), f) == (match list_norm(xs.take(i), f) {
            Err(e) => Err(e),
            Ok(p) => match f(xs[i]) {
                Ok(x) => Ok(p.push(x)),
                Err(e) => Err(e),
            },
        }),
{
    assert(xs.take(i + 1).drop_last() =~= xs.take(i));
    assert(xs.take(i + 1).last() == xs[i]);
}

/// A refusal of a prefix is the refusal of every longer prefix.
pub proof fn lemma_list_norm_err<A, B>(xs: Seq<A>, f: spec_fn(A) -> Result<B, Refusal>, i: int, j: int)
    requires
        0 <= i <= j <= xs.len(),
        list_norm(xs.take(i), f) is Err,
    ensures
        list_norm(xs.take(j), f) == list_norm(xs.take(i), f),
    decreases j - i,
{
    if j > i {
        lemma_list_norm_err(xs, f, i, j - 1);
        lemma_list_norm_step(xs, f, j - 1);
    }
}

/// A whole list is its longest prefix.
pub proof fn lemma_list_norm_whole<A, B>(xs: Seq<A>, f: spec_fn(A) -> Result<B, Refusal>)
    ensures
        list_norm(xs.take(xs.len() as int), f) == list_norm(xs, f),
{
    assert(xs.take(xs.len() as int) =~= xs);
}

pub proof fn lemma_union_norm_step(xs: Seq<SyntaxUnionMember>, i: int)
    requires
        0 <= i < xs.len(),
    ensures
        union_norm(xs.take(i + 1)) == (match union_norm(xs.take(i)) {
            Err(e) => Err(e),
            Ok(p) => union_member_step(p, xs[i], type_norm(xs[i].member)),
        }),
{
    assert(xs.take(i + 1).drop_last() =~= xs.take(i));
    assert(xs.take(i + 1).last() == xs[i]);
}

pub proof fn lemma_union_norm_err(xs: Seq<SyntaxUnionMember>, i: int, j: int)
    requires
        0 <= i <= j <= xs.len(),
        union_norm(xs.take(i)) is Err,
    ensures
        union_norm(xs.take(j)) == union_norm(xs.take(i)),
    decreases j - i,
{
    if j > i {
        lemma_union_norm_err(xs, i, j - 1);
        lemma_union_norm_step(xs, j - 1);
    }
}


// ----- normalization --------------------------------------------------------------

fn unsupported(construct: &str) -> (r: WebIdlError)
    ensures
        reports(r, unsupported_refusal(construct@)),
{
    let mut m = String::new();
    push_str(&mut m, "unsupported WebIDL construct: ");
    push_str(&mut m, construct);
    proof {
        assert(m@ =~= "unsupported WebIDL construct: "@ + construct@);
    }
    WebIdlError::with_message(WebIdlErrorKind::UnsupportedDefinition, m)
}

fn attributes_refused(context: &str) -> (r: WebIdlError)
    ensures
        reports(r, attributes_refusal(context@)),
{
    let mut m = String::new();
    push_str(&mut m, "unsupported WebIDL construct: ");
    push_str(&mut m, "extended attributes on ");
    push_str(&mut m, context);
    proof {
        assert(m@ =~= "unsupported WebIDL construct: "@ + ("extended attributes on "@ + context@));
    }
    WebIdlError::with_message(WebIdlErrorKind::UnsupportedDefinition, m)
}

fn identifier(name: &String) -> (r: Result<Identifier, WebIdlError>)
    ensures
        match ident_norm(*name) {
            Ok(n) => r matches Ok(i) && i@ == n,
            Err(why) => r matches Err(e) && reports(e, why),
        },
{
    Identifier::new(name.as_str())
}

fn optional_identifier(name: &Option<String>) -> (r: Result<Option<Identifier>, WebIdlError>)
    ensures
        match opt_ident_norm(*name) {
            Ok(n) => r matches Ok(i) && opt_name(i) == n,
            Err(why) => r matches Err(e) && reports(e, why),
        },
{
    match name {
        None => Ok(None),
        Some(n) => match identifier(n) {
            Ok(i) => Ok(Some(i)),
            Err(e) => Err(e),
        },
    }
}

fn with_nullable(value: WebIdlType, nullable: bool) -> (r: WebIdlType)
    ensures
        type_model(r) == nullable_model(type_model(value), nullable),
{
    if nullable {
        WebIdlType::Nullable(Box::new(value))
    } else {
        value
    }
}

fn integer_primitive_of(width: IntegerWidth, unsigned: bool) -> (r: PrimitiveType)
    ensures
        r == integer_primitive(width, unsigned),
{
    match width {
        IntegerWidth::Short => if unsigned { PrimitiveType::UnsignedShort } else { PrimitiveType::Short },
        IntegerWidth::Long => if unsigned { PrimitiveType::UnsignedLong } else { PrimitiveType::Long },
        IntegerWidth::LongLong => if unsigned {
            PrimitiveType::UnsignedLongLong
        } else {
            PrimitiveType::LongLong
        },
    }
}

fn float_primitive_of(double: bool, unrestricted: bool) -> (r: PrimitiveType)
    ensures
        r == float_primitive(double, unrestricted),
{
    if double {
        if unrestricted { PrimitiveType::UnrestrictedDouble } else { PrimitiveType::Double }
    } else {
        if unrestricted { PrimitiveType::UnrestrictedFloat } else { PrimitiveType::Float }
    }
}

fn buffer_identifier(kind: BufferType) -> (r: Identifier)
    ensures
        r@ == buffer_name(kind),
{
    let name = match kind {
        BufferType::Error => "Error",
        BufferType::ArrayBuffer => "ArrayBuffer",
        BufferType::DataView => "DataView",
        BufferType::Int8Array => "Int8Array",
        BufferType::Int16Array => "Int16Array",
        BufferType::Int32Array => "Int32Array",
        BufferType::Uint8Array => "Uint8Array",
        BufferType::Uint16Array => "Uint16Array",
        BufferType::Uint32Array => "Uint32Array",
        BufferType::Uint8ClampedArray => "Uint8ClampedArray",
        BufferType::Float32Array => "Float32Array",
        BufferType::Float64Array => "Float64Array",
        BufferType::ArrayBufferView => "ArrayBufferView",
        BufferType::BufferSource => "BufferSource",
    };
    proof {
        reveal_strlit("Error");
        reveal_strlit("ArrayBuffer");
        reveal_strlit("DataView");
        reveal_strlit("Int8Array");
        reveal_strlit("Int16Array");
        reveal_strlit("Int32Array");
        reveal_strlit("Uint8Array");
        reveal_strlit("Uint16Array");
        reveal_strlit("Uint32Array");
        reveal_strlit("Uint8ClampedArray");
        reveal_strlit("Float32Array");
        reveal_strlit("Float64Array");
        reveal_strlit("ArrayBufferView");
        reveal_strlit("BufferSource");
    }
    match Identifier::new(name) {
        Ok(i) => i,
        Err(_) => {
            assert(false);
            Identifier::new("Error").unwrap()
        },
    }
}

/// The normalized type of a written type, or the error that refuses it.
pub fn normalize_type(t: &SyntaxType) -> (r: Result<WebIdlType, WebIdlError>)
    ensures
        match type_norm(*t) {
            Ok(m) => r matches Ok(w) && type_model(w) == m,
            Err(why) => r matches Err(e) && reports(e, why),
        },
    decreases t,
{
    match t {
        SyntaxType::Any => Ok(WebIdlType::Any),
        SyntaxType::Undefined => Ok(WebIdlType::Undefined),
        SyntaxType::Integer { width, unsigned, nullable } => Ok(
            with_nullable(WebIdlType::Primitive(integer_primitive_of(*width, *unsigned)), *nullable),
        ),
        SyntaxType::FloatingPoint { double, unrestricted, nullable } => Ok(
            with_nullable(WebIdlType::Primitive(float_primitive_of(*double, *unrestricted)), *nullable),
        ),
        SyntaxType::Boolean { nullable } => Ok(with_nullable(WebIdlType::Primitive(PrimitiveType::Boolean), *nullable)),
        SyntaxType::Byte { nullable } => Ok(with_nullable(WebIdlType::Primitive(PrimitiveType::Byte), *nullable)),
        SyntaxType::Octet { nullable } => Ok(with_nullable(WebIdlType::Primitive(PrimitiveType::Octet), *nullable)),
        SyntaxType::String { kind, nullable } => Ok(with_nullable(WebIdlType::String(*kind), *nullable)),
        SyntaxType::Object { nullable } => Ok(with_nullable(WebIdlType::Object, *nullable)),
        SyntaxType::Symbol { nullable } => Ok(with_nullable(WebIdlType::Symbol, *nullable)),
        SyntaxType::Buffer { kind, nullable } => Ok(with_nullable(WebIdlType::Named(buffer_identifier(*kind)), *nullable)),
        SyntaxType::Named { name, nullable } => match identifier(name) {
            Ok(i) => Ok(with_nullable(WebIdlType::Named(i), *nullable)),
            Err(e) => Err(e),
        },
        SyntaxType::Sequence { item, nullable } => match normalize_type(item) {
            Ok(w) => Ok(with_nullable(WebIdlType::Sequence(Box::new(w)), *nullable)),
            Err(e) => Err(e),
        },
        SyntaxType::FrozenArray { item, nullable } => match normalize_type(item) {
            Ok(w) => Ok(with_nullable(WebIdlType::FrozenArray(Box::new(w)), *nullable)),
            Err(e) => Err(e),
        },
        SyntaxType::ObservableArray => Err(unsupported("ObservableArray types")),
        SyntaxType::Promise { item } => match normalize_type(item) {
            Ok(w) => Ok(WebIdlType::Promise(Box::new(w))),
            Err(e) => Err(e),
        },
        SyntaxType::Record { key, value, nullable } => {
            let k = match key {
                SyntaxRecordKey::ByteString => StringType::ByteString,
                SyntaxRecordKey::DomString => StringType::DomString,
                SyntaxRecordKey::UsvString => StringType::UsvString,
                SyntaxRecordKey::Other => {
                    return Err(unsupported("non-string record key types"));
                },
            };
            match normalize_type(value) {
                Ok(w) => Ok(with_nullable(WebIdlType::Record { key: k, value: Box::new(w) }, *nullable)),
                Err(e) => Err(e),
            }
        },
        SyntaxType::Union { members, nullable } => {
            let mut out: Vec<WebIdlType> = Vec::new();
            let mut i: usize = 0;
            proof {
                assert(members@.take(0) =~= Seq::<SyntaxUnionMember>::empty());
            }
            while i < members.len()
                invariant
                    0 <= i <= members@.len(),
                    *t == (SyntaxType::Union { members: *members, nullable: *nullable }),
                    union_norm(members@.take(i as int)) is Ok,
                    union_norm(members@.take(i as int))->Ok_0.len() == i,
                    out@.len() == i,
                    forall|k: int|
                        0 <= k < i ==> #[trigger] type_model(out@[k]) == union_norm(members@.take(i as int))->Ok_0[k],
                decreases members@.len() - i,
            {
                proof {
                    broadcast use vstd::std_specs::vec::axiom_vec_index_decreases;
                    assert(decreases_to!(*t => (*t)->Union_members));
                    assert(decreases_to!(*members => members[i as int]));
                    lemma_union_norm_step(members@, i as int);
                }
                let m = &members[i];
                if m.attributed {
                    proof {
                        lemma_union_norm_err(members@, i + 1, members@.len() as int);
                        assert(members@.take(members@.len() as int) =~= members@);
                    }
                    return Err(attributes_refused("union member type attributes"));
                }
                match normalize_type(&m.member) {
                    Ok(w) => {
                        let ghost before = out@;
                        out.push(w);
                        proof {
                            let p = union_norm(members@.take(i + 1))->Ok_0;
                            assert forall|k: int| 0 <= k < i + 1 implies #[trigger] type_model(out@[k]) == p[k] by {
                                if k < i {
                                    assert(out@[k] == before[k]);
                                }
                            }
                        }
                    },
                    Err(e) => {
                        proof {
                            lemma_union_norm_err(members@, i + 1, members@.len() as int);
                            assert(members@.take(members@.len() as int) =~= members@);
                        }
                        return Err(e);
                    },
                }
                i = i + 1;
            }
            let ghost ms = union_norm(members@.take(i as int))->Ok_0;
            let w = WebIdlType::Union(out);
            proof {
                assert(members@.take(members@.len() as int) =~= members@);
                broadcast use vstd::std_specs::vec::axiom_vec_index_decreases;
                let a = type_model(w)->Union_0;
                assert(type_model(w) is Union);
                assert(a.len() == ms.len());
                assert forall|k: int| 0 <= k < a.len() implies a[k] == ms[k] by {
                    assert(a[k] == type_model(out@[k]));
                }
                assert(a =~= ms);
            }
            Ok(with_nullable(w, *nullable))
        },
    }
}


/// A type that may carry extended attributes.
fn normalize_attributed_type(type_attributed: bool, t: &SyntaxType) -> (r: Result<WebIdlType, WebIdlError>)
    ensures
        match attributed_type_norm(type_attributed, *t) {
            Ok(m) => r matches Ok(w) && type_model(w) == m,
            Err(why) => r matches Err(e) && reports(e, why),
        },
{
    if type_attributed {
        return Err(attributes_refused("type extended attributes"));
    }
    normalize_type(t)
}

/// An operation argument.
pub fn normalize_argument(a: &SyntaxArgument) -> (r: Result<Argument, WebIdlError>)
    ensures
        match argument_norm(*a) {
            Ok(m) => r matches Ok(x) && argument_model(x) == m,
            Err(why) => r matches Err(e) && reports(e, why),
        },
{
    if a.variadic {
        if a.attributed {
            return Err(attributes_refused("variadic operation argument"));
        }
        let name = identifier(&a.name)?;
        let value_type = normalize_type(&a.value_type)?;
        return Ok(Argument { name, value_type, optional: false, variadic: true });
    }
    if a.attributed {
        return Err(attributes_refused("operation argument"));
    }
    if a.has_default {
        return Err(unsupported("operation argument default values"));
    }
    let name = identifier(&a.name)?;
    let value_type = normalize_attributed_type(a.type_attributed, &a.value_type)?;
    Ok(Argument { name, value_type, optional: a.optional, variadic: false })
}

/// The arguments of an operation, in order.
pub fn normalize_arguments(xs: &Vec<SyntaxArgument>) -> (r: Result<Vec<Argument>, WebIdlError>)
    ensures
        match arguments_norm(xs@) {
            Ok(ms) => r matches Ok(v) && v@.map_values(argument_view()) == ms,
            Err(why) => r matches Err(e) && reports(e, why),
        },
{
    let mut out: Vec<Argument> = Vec::new();
    let mut i: usize = 0;
    proof {
        assert(xs@.take(0) =~= Seq::<SyntaxArgument>::empty());
        assert(out@.map_values(argument_view()) =~= Seq::empty());
    }
    while i < xs.len()
        invariant
            0 <= i <= xs@.len(),
            list_norm(xs@.take(i as int), argument_step()) == Ok::<Seq<_>, Refusal>(out@.map_values(argument_view())),
        decreases xs@.len() - i,
    {
        proof {
            lemma_list_norm_step(xs@, argument_step(), i as int);
        }
        match normalize_argument(&xs[i]) {
            Ok(x) => {
                let ghost before = out@;
                out.push(x);
                proof {
                    assert(out@.map_values(argument_view()) =~= before.map_values(argument_view()).push(argument_view()(x)));
                }
            },
            Err(e) => {
                proof {
                    lemma_list_norm_err(xs@, argument_step(), i + 1, xs@.len() as int);
                    lemma_list_norm_whole(xs@, argument_step());
                }
                return Err(e);
            },
        }
        i = i + 1;
    }
    proof {
        lemma_list_norm_whole(xs@, argument_step());
    }
    Ok(out)
}

fn normalize_operation(
    name: &Option<String>,
    return_type: &SyntaxType,
    arguments: &Vec<SyntaxArgument>,
    static_: bool,
) -> (r: Result<InterfaceMember, WebIdlError>)
    ensures
        match operation_norm(*name, *return_type, arguments@, static_) {
            Ok(m) => r matches Ok(x) && member_model(x) == m,
            Err(why) => r matches Err(e) && reports(e, why),
        },
{
    let name = optional_identifier(name)?;
    let return_type = normalize_type(return_type)?;
    let arguments = normalize_arguments(arguments)?;
    Ok(InterfaceMember::Operation { name, return_type, arguments, static_ })
}

fn normalize_attribute(
    name: &String,
    type_attributed: bool,
    value_type: &SyntaxType,
    readonly: bool,
    static_: bool,
) -> (r: Result<InterfaceMember, WebIdlError>)
    ensures
        match attribute_norm(*name, type_attributed, *value_type, readonly, static_) {
            Ok(m) => r matches Ok(x) && member_model(x) == m,
            Err(why) => r matches Err(e) && reports(e, why),
        },
{
    let name = identifier(name)?;
    let value_type = normalize_attributed_type(type_attributed, value_type)?;
    Ok(InterfaceMember::Attribute { name, value_type, readonly, static_ })
}

/// A member of an interface.
pub fn normalize_member(m: &SyntaxMember) -> (r: Result<InterfaceMember, WebIdlError>)
    ensures
        match member_norm(*m) {
            Ok(mm) => r matches Ok(x) && member_model(x) == mm,
            Err(why) => r matches Err(e) && reports(e, why),
        },
{
    match m {
        SyntaxMember::Attribute { attributed, modifier, readonly, name, type_attributed, value_type } => {
            if *attributed {
                return Err(attributes_refused("interface attribute"));
            }
            let static_ = match modifier {
                AttributeModifier::Plain => false,
                AttributeModifier::Static => true,
                _ => {
                    return Err(unsupported("stringifier/inherit attributes"));
                },
            };
            normalize_attribute(name, *type_attributed, value_type, *readonly, static_)
        },
        SyntaxMember::Operation { attributed, special, modifier, name, return_type, arguments } => {
            if *attributed {
                return Err(attributes_refused("interface operation"));
            }
            if *special {
                return Err(unsupported("special getter/setter/deleter operations"));
            }
            let static_ = match modifier {
                OperationModifier::Plain => false,
                OperationModifier::Static => true,
                OperationModifier::Stringifier => {
                    return Err(unsupported("stringifier operations"));
                },
            };
            normalize_operation(name, return_type, arguments, static_)
        },
        SyntaxMember::Const => Err(unsupported("interface constants")),
        SyntaxMember::Constructor => Err(unsupported("interface constructors")),
        SyntaxMember::Collection => Err(unsupported("collection interface members")),
        SyntaxMember::Stringifier => Err(unsupported("standalone stringifiers")),
    }
}

/// The members of an interface, in order.
pub fn normalize_members(xs: &Vec<SyntaxMember>) -> (r: Result<Vec<InterfaceMember>, WebIdlError>)
    ensures
        match members_norm(xs@) {
            Ok(ms) => r matches Ok(v) && v@.map_values(member_view()) == ms,
            Err(why) => r matches Err(e) && reports(e, why),
        },
{
    let mut out: Vec<InterfaceMember> = Vec::new();
    let mut i: usize = 0;
    proof {
        assert(xs@.take(0) =~= Seq::<SyntaxMember>::empty());
        assert(out@.map_values(member_view()) =~= Seq::empty());
    }
    while i < xs.len()
        invariant
            0 <= i <= xs@.len(),
            list_norm(xs@.take(i as int), member_step()) == Ok::<Seq<_>, Refusal>(out@.map_values(member_view())),
        decreases xs@.len() - i,
    {
        proof {
            lemma_list_norm_step(xs@, member_step(), i as int);
        }
        match normalize_member(&xs[i]) {
            Ok(x) => {
                let ghost before = out@;
                out.push(x);
                proof {
                    assert(out@.map_values(member_view()) =~= before.map_values(member_view()).push(member_view()(x)));
                }
            },
            Err(e) => {
                proof {
                    lemma_list_norm_err(xs@, member_step(), i + 1, xs@.len() as int);
                    lemma_list_norm_whole(xs@, member_step());
                }
                return Err(e);
            },
        }
        i = i + 1;
    }
    proof {
        lemma_list_norm_whole(xs@, member_step());
    }
    Ok(out)
}

/// A member of an interface mixin.
pub fn normalize_mixin_member(m: &SyntaxMixinMember) -> (r: Result<InterfaceMember, WebIdlError>)
    ensures
        match mixin_member_norm(*m) {
            Ok(mm) => r matches Ok(x) && member_model(x) == mm,
            Err(why) => r matches Err(e) && reports(e, why),
        },
{
    match m {
        SyntaxMixinMember::Attribute { attributed, stringifier, readonly, name, type_attributed, value_type } => {
            if *attributed {
                return Err(attributes_refused("mixin attribute"));
            }
            if *stringifier {
                return Err(unsupported("stringifier mixin attributes"));
            }
            normalize_attribute(name, *type_attributed, value_type, *readonly, false)
        },
        SyntaxMixinMember::Operation { attributed, stringifier, name, return_type, arguments } => {
            if *attributed {
                return Err(attributes_refused("mixin operation"));
            }
            if *stringifier {
                return Err(unsupported("stringifier mixin operations"));
            }
            normalize_operation(name, return_type, arguments, false)
        },
        SyntaxMixinMember::Const => Err(unsupported("mixin constants")),
        SyntaxMixinMember::Stringifier => Err(unsupported("mixin stringifiers")),
    }
}

/// The members of an interface mixin, in order.
pub fn normalize_mixin_members(xs: &Vec<SyntaxMixinMember>) -> (r: Result<Vec<InterfaceMember>, WebIdlError>)
    ensures
        match mixin_members_norm(xs@) {
            Ok(ms) => r matches Ok(v) && v@.map_values(member_view()) == ms,
            Err(why) => r matches Err(e) && reports(e, why),
        },
{
    let mut out: Vec<InterfaceMember> = Vec::new();
    let mut i: usize = 0;
    proof {
        assert(xs@.take(0) =~= Seq::<SyntaxMixinMember>::empty());
        assert(out@.map_values(member_view()) =~= Seq::empty());
    }
    while i < xs.len()
        invariant
            0 <= i <= xs@.len(),
            list_norm(xs@.take(i as int), mixin_member_step()) == Ok::<Seq<_>, Refusal>(out@.map_values(member_view())),
        decreases xs@.len() - i,
    {
        proof {
            lemma_list_norm_step(xs@, mixin_member_step(), i as int);
        }
        match normalize_mixin_member(&xs[i]) {
            Ok(x) => {
                let ghost before = out@;
                out.push(x);
                proof {
                    assert(out@.map_values(member_view()) =~= before.map_values(member_view()).push(member_view()(x)));
                }
            },
            Err(e) => {
                proof {
                    lemma_list_norm_err(xs@, mixin_member_step(), i + 1, xs@.len() as int);
                    lemma_list_norm_whole(xs@, mixin_member_step());
                }
                return Err(e);
            },
        }
        i = i + 1;
    }
    proof {
        lemma_list_norm_whole(xs@, mixin_member_step());
    }
    Ok(out)
}

/// A dictionary member.
pub fn normalize_dictionary_member(m: &SyntaxDictionaryMember) -> (r: Result<DictionaryMember, WebIdlError>)
    ensures
        match dictionary_member_norm(*m) {
            Ok(mm) => r matches Ok(x) && dictionary_member_model(x) == mm,
            Err(why) => r matches Err(e) && reports(e, why),
        },
{
    if m.attributed {
        return Err(attributes_refused("dictionary member"));
    }
    if m.has_default {
        return Err(unsupported("dictionary member default values"));
    }
    let name = identifier(&m.name)?;
    let value_type = normalize_type(&m.value_type)?;
    Ok(DictionaryMember { name, value_type, required: m.required })
}

/// The members of a dictionary, in order.
pub fn normalize_dictionary_members(xs: &Vec<SyntaxDictionaryMember>) -> (r: Result<Vec<DictionaryMember>, WebIdlError>)
    ensures
        match dictionary_members_norm(xs@) {
            Ok(ms) => r matches Ok(v) && v@.map_values(dictionary_member_view()) == ms,
            Err(why) => r matches Err(e) && reports(e, why),
        },
{
    let mut out: Vec<DictionaryMember> = Vec::new();
    let mut i: usize = 0;
    proof {
        assert(xs@.take(0) =~= Seq::<SyntaxDictionaryMember>::empty());
        assert(out@.map_values(dictionary_member_view()) =~= Seq::empty());
    }
    while i < xs.len()
        invariant
            0 <= i <= xs@.len(),
            list_norm(xs@.take(i as int), dictionary_member_step()) == Ok::<Seq<_>, Refusal>(out@.map_values(dictionary_member_view())),
        decreases xs@.len() - i,
    {
        proof {
            lemma_list_norm_step(xs@, dictionary_member_step(), i as int);
        }
        match normalize_dictionary_member(&xs[i]) {
            Ok(x) => {
                let ghost before = out@;
                out.push(x);
                proof {
                    assert(out@.map_values(dictionary_member_view()) =~= before.map_values(dictionary_member_view()).push(dictionary_member_view()(x)));
                }
            },
            Err(e) => {
                proof {
                    lemma_list_norm_err(xs@, dictionary_member_step(), i + 1, xs@.len() as int);
                    lemma_list_norm_whole(xs@, dictionary_member_step());
                }
                return Err(e);
            },
        }
        i = i + 1;
    }
    proof {
        lemma_list_norm_whole(xs@, dictionary_member_step());
    }
    Ok(out)
}


/// A copy of an enum's values.
fn copy_values(values: &Vec<String>) -> (r: Vec<String>)
    ensures
        r@.map_values(string_view()) == values@.map_values(string_view()),
{
    let mut out: Vec<String> = Vec::new();
    let mut i: usize = 0;
    while i < values.len()
        invariant
            0 <= i <= values@.len(),
            out@.len() == i,
            forall|k: int| 0 <= k < i ==> #[trigger] out@[k]@ == values@[k]@,
        decreases values@.len() - i,
    {
        out.push(values[i].clone());
        i = i + 1;
    }
    proof {
        assert(out@.map_values(string_view()) =~= values@.map_values(string_view()));
    }
    out
}

fn interface_definition(
    name: &String,
    inherits: &Option<String>,
    members: Result<Vec<InterfaceMember>, WebIdlError>,
    partial: bool,
    mixin: bool,
    model: Ghost<Result<Seq<MemberModel>, Refusal>>,
) -> (r: Result<Definition, WebIdlError>)
    requires
        match model@ {
            Ok(ms) => members matches Ok(v) && v@.map_values(member_view()) == ms,
            Err(why) => members matches Err(e) && reports(e, why),
        },
    ensures
        match interface_norm(*name, *inherits, model@, partial, mixin) {
            Ok(d) => r matches Ok(x) && definition_model(x) == d,
            Err(why) => r matches Err(e) && reports(e, why),
        },
{
    let name = identifier(name)?;
    let inherits = optional_identifier(inherits)?;
    let members = members?;
    Ok(Definition::Interface(InterfaceDefinition { name, inherits, members, partial, mixin }))
}

fn dictionary_definition(
    name: &String,
    inherits: &Option<String>,
    members: &Vec<SyntaxDictionaryMember>,
    partial: bool,
) -> (r: Result<Definition, WebIdlError>)
    ensures
        match dictionary_norm(*name, *inherits, dictionary_members_norm(members@), partial) {
            Ok(d) => r matches Ok(x) && definition_model(x) == d,
            Err(why) => r matches Err(e) && reports(e, why),
        },
{
    let name = identifier(name)?;
    let inherits = optional_identifier(inherits)?;
    let members = normalize_dictionary_members(members)?;
    Ok(Definition::Dictionary(DictionaryDefinition { name, inherits, members, partial }))
}

/// A definition.
pub fn normalize_definition(d: &SyntaxDefinition) -> (r: Result<Definition, WebIdlError>)
    ensures
        match definition_norm(*d) {
            Ok(m) => r matches Ok(x) && definition_model(x) == m,
            Err(why) => r matches Err(e) && reports(e, why),
        },
{
    match d {
        SyntaxDefinition::Interface { attributed, name, inherits, members } => {
            if *attributed {
                return Err(attributes_refused("interface"));
            }
            match identifier(name) {
                Err(e) => {
                    return Err(e);
                },
                Ok(_) => {},
            }
            match optional_identifier(inherits) {
                Err(e) => {
                    return Err(e);
                },
                Ok(_) => {},
            }
            let ms = normalize_members(members);
            interface_definition(name, inherits, ms, false, false, Ghost(members_norm(members@)))
        },
        SyntaxDefinition::PartialInterface { attributed, name, members } => {
            if *attributed {
                return Err(attributes_refused("partial interface"));
            }
            match identifier(name) {
                Err(e) => {
                    return Err(e);
                },
                Ok(_) => {},
            }
            let ms = normalize_members(members);
            interface_definition(name, &None, ms, true, false, Ghost(members_norm(members@)))
        },
        SyntaxDefinition::InterfaceMixin { attributed, name, members } => {
            if *attributed {
                return Err(attributes_refused("interface mixin"));
            }
            match identifier(name) {
                Err(e) => {
                    return Err(e);
                },
                Ok(_) => {},
            }
            let ms = normalize_mixin_members(members);
            interface_definition(name, &None, ms, false, true, Ghost(mixin_members_norm(members@)))
        },
        SyntaxDefinition::PartialInterfaceMixin { attributed, name, members } => {
            if *attributed {
                return Err(attributes_refused("partial interface mixin"));
            }
            match identifier(name) {
                Err(e) => {
                    return Err(e);
                },
                Ok(_) => {},
            }
            let ms = normalize_mixin_members(members);
            interface_definition(name, &None, ms, true, true, Ghost(mixin_members_norm(members@)))
        },
        SyntaxDefinition::Dictionary { attributed, name, inherits, members } => {
            if *attributed {
                return Err(attributes_refused("dictionary"));
            }
            dictionary_definition(name, inherits, members, false)
        },
        SyntaxDefinition::PartialDictionary { attributed, name, members } => {
            if *attributed {
                return Err(attributes_refused("partial dictionary"));
            }
            dictionary_definition(name, &None, members, true)
        },
        SyntaxDefinition::Enum { attributed, name, values } => {
            if *attributed {
                return Err(attributes_refused("enum"));
            }
            let name = identifier(name)?;
            Ok(Definition::Enum(EnumDefinition { name, values: copy_values(values) }))
        },
        SyntaxDefinition::Typedef { attributed, name, type_attributed, value_type } => {
            if *attributed {
                return Err(attributes_refused("typedef"));
            }
            let name = identifier(name)?;
            let value_type = normalize_attributed_type(*type_attributed, value_type)?;
            Ok(Definition::Typedef(TypedefDefinition { name, value_type }))
        },
        SyntaxDefinition::Includes { attributed, target, mixin } => {
            if *attributed {
                return Err(attributes_refused("includes statement"));
            }
            let target = identifier(target)?;
            let mixin = identifier(mixin)?;
            Ok(Definition::Includes(IncludesDefinition { target, mixin }))
        },
        SyntaxDefinition::Callback => Err(unsupported("callback definitions")),
        SyntaxDefinition::CallbackInterface => Err(unsupported("callback interfaces")),
        SyntaxDefinition::Namespace => Err(unsupported("namespace definitions")),
        SyntaxDefinition::Implements => Err(unsupported("legacy implements statements")),
    }
}


/// The definitions of a module, in source order; refused at the first definition that cannot be normalized.
pub fn normalize_definitions(xs: &Vec<SyntaxDefinition>) -> (r: Result<Vec<Definition>, WebIdlError>)
    ensures
        match definitions_norm(xs@) {
            Ok(ms) => r matches Ok(v) && v@.map_values(definition_view()) == ms,
            Err(why) => r matches Err(e) && reports(e, why),
        },
{
    let mut out: Vec<Definition> = Vec::new();
    let mut i: usize = 0;
    proof {
        assert(xs@.take(0) =~= Seq::<SyntaxDefinition>::empty());
        assert(out@.map_values(definition_view()) =~= Seq::empty());
    }
    while i < xs.len()
        invariant
            0 <= i <= xs@.len(),
            list_norm(xs@.take(i as int), definition_step()) == Ok::<Seq<_>, Refusal>(out@.map_values(definition_view())),
        decreases xs@.len() - i,
    {
        proof {
            lemma_list_norm_step(xs@, definition_step(), i as int);
        }
        match normalize_definition(&xs[i]) {
            Ok(x) => {
                let ghost before = out@;
                out.push(x);
                proof {
                    assert(out@.map_values(definition_view()) =~= before.map_values(definition_view()).push(definition_view()(x)));
                }
            },
            Err(e) => {
                proof {
                    lemma_list_norm_err(xs@, definition_step(), i + 1, xs@.len() as int);
                    lemma_list_norm_whole(xs@, definition_step());
                }
                return Err(e);
            },
        }
        i = i + 1;
    }
    proof {
        lemma_list_norm_whole(xs@, definition_step());
    }
    Ok(out)
}

/// What the standards parser gave for a source: its definitions and the
/// text it left unread, or, where it failed, the length of the text it had
/// left (`None` when it asked for more input).
#[derive(Debug)]
pub enum SyntaxParse {
    Parsed { definitions: Vec<SyntaxDefinition>, remaining: String },
    Failed { remaining_len: Option<usize> },
}

/// The span of the character at `offset`, clipped to a source of `len` bytes.
pub open spec fn point_span(len: nat, offset: nat) -> SourceSpan {
    SourceSpan { start: offset as usize, end: (if offset < len { offset + 1 } else { len }) as usize }
}

/// The byte offset where `remaining` bytes of a `len`-byte source start.
pub open spec fn offset_of(len: nat, remaining: nat) -> nat {
    if remaining <= len { (len - remaining) as nat } else { 0 }
}

/// The module that a standards parse of `source` gives: a parser failure
/// and unread text that is not blank are `Frontend` errors whose span
/// points at the unread text; otherwise the definitions are normalized in
/// source order, with no diagnostics.
pub open spec fn standards_result(source: Seq<char>, parse: SyntaxParse, r: Result<WebIdlModule, WebIdlError>) -> bool {
    let len = utf8_len(source);
    match parse {
        SyntaxParse::Failed { remaining_len } => {
            let offset = match remaining_len {
                Some(n) => offset_of(len, n as nat),
                None => len,
            };
            r matches Err(e) && e.kind == WebIdlErrorKind::Frontend && e.message@ == "failed to parse WebIDL"@
                && e.span == Some(point_span(len, offset))
        },
        SyntaxParse::Parsed { definitions, remaining } => if !is_blank(remaining@) {
            r matches Err(e) && e.kind == WebIdlErrorKind::Frontend && e.message@
                == "WebIDL parser left unconsumed input"@ && e.span == Some(
                point_span(len, offset_of(len, utf8_len(remaining@))),
            )
        } else {
            match definitions_norm(definitions@) {
                Ok(ms) => r matches Ok(m) && m.definitions@.map_values(definition_view()) == ms
                    && m.diagnostics@.len() == 0,
                Err(why) => r matches Err(e) && reports(e, why),
            }
        },
    }
}

fn point_span_at(len: usize, offset: usize) -> (r: SourceSpan)
    ensures
        r == point_span(len as nat, offset as nat),
{
    let end = if offset < len { offset + 1 } else { len };
    SourceSpan::new(offset, end)
}

fn frontend_error(message: &str, len: usize, offset: usize) -> (r: WebIdlError)
    ensures
        r.kind == WebIdlErrorKind::Frontend,
        r.message@ == message@,
        r.span == Some(point_span(len as nat, offset as nat)),
{
    WebIdlError::new(WebIdlErrorKind::Frontend, message).with_span(point_span_at(len, offset))
}

/// Builds the module of a standards parse of `source`.
pub fn standards_module(source: &str, parse: SyntaxParse) -> (r: Result<WebIdlModule, WebIdlError>)
    ensures
        standards_result(source@, parse, r),
{
    let len = utf8_byte_len(source);
    match parse {
        SyntaxParse::Failed { remaining_len } => {
            let offset = match remaining_len {
                Some(n) => len.saturating_sub(n),
                None => len,
            };
            proof {
                reveal_strlit("failed to parse WebIDL");
            }
            Err(frontend_error("failed to parse WebIDL", len, offset))
        },
        SyntaxParse::Parsed { definitions, remaining } => {
            if !str_is_blank(remaining.as_str()) {
                let offset = len.saturating_sub(utf8_byte_len(remaining.as_str()));
                return Err(frontend_error("WebIDL parser left unconsumed input", len, offset));
            }
            let normalized = normalize_definitions(&definitions)?;
            Ok(WebIdlModule { definitions: normalized, diagnostics: Vec::new() })
        },
    }
}


// ----- reading weedle's syntax tree ------------------------------------------------

#[verifier::external_type_specification]
#[verifier::external_body]
pub struct ExWeedleDefinition<'a>(WeedleDefinition<'a>);

#[verifier::external_type_specification]
#[verifier::external_body]
pub struct ExWeedleInterfaceMember<'a>(WeedleInterfaceMember<'a>);

#[verifier::external_type_specification]
#[verifier::external_body]
pub struct ExWeedleMixinMember<'a>(WeedleMixinMember<'a>);

#[verifier::external_type_specification]
#[verifier::external_body]
pub struct ExWeedleDictionaryMember<'a>(WeedleDictionaryMember<'a>);

#[verifier::external_type_specification]
#[verifier::external_body]
pub struct ExWeedleArgument<'a>(WeedleArgument<'a>);

#[verifier::external_type_specification]
#[verifier::external_body]
pub struct ExWeedleIdentifier<'a>(WeedleIdentifier<'a>);

#[verifier::external_type_specification]
#[verifier::external_body]
pub struct ExWeedleType<'a>(WeedleType<'a>);

#[verifier::external_type_specification]
#[verifier::external_body]
pub struct ExWeedleReturnType<'a>(WeedleReturnType<'a>);

#[verifier::external_type_specification]
#[verifier::external_body]
pub struct ExWeedleUnionMemberType<'a>(WeedleUnionMemberType<'a>);

#[verifier::external_type_specification]
#[verifier::external_body]
pub struct ExWeedleNonAnyType<'a>(WeedleNonAnyType<'a>);

#[verifier::external_type_specification]
#[verifier::external_body]
pub struct ExWeedleAttributeModifier(WeedleAttributeModifier);

#[verifier::external_type_specification]
#[verifier::external_body]
pub struct ExWeedleOperationModifier(WeedleOperationModifier);

#[verifier::external_type_specification]
#[verifier::external_body]
pub struct ExWeedleIntegerType(WeedleIntegerType);

#[verifier::external_type_specification]
#[verifier::external_body]
pub struct ExWeedleFloatingPointType(WeedleFloatingPointType);

#[verifier::external_type_specification]
#[verifier::external_body]
#[verifier::reject_recursive_types(T)]
pub struct ExWeedleMayBeNull<T>(WeedleMayBeNull<T>);

#[verifier::external_type_specification]
#[verifier::external_body]
pub struct ExWeedleRecordType<'a>(WeedleRecordType<'a>);

/// What `weedle`'s parser gives for a source, read one for one into syntax
/// values. It depends on the source alone.
pub uninterp spec fn weedle_syntax(source: Seq<char>) -> SyntaxParse;

/// Calls `weedle::Definitions::parse` (the `weedle::Parse` trait) on the
/// source and reads what it gives: the definitions and the text left
/// unread, or, for a parse error, the length of the text left at the error
/// (`None` when the parser asks for more input). The reading is one for one;
/// the result is named `weedle_syntax`.
#[verifier::external_body]
pub fn weedle_parse(source: &str) -> (r: SyntaxParse)
    ensures
        r == weedle_syntax(source@),
{
    match weedle::Definitions::parse(source) {
        Ok((remaining, definitions)) => SyntaxParse::Parsed {
            definitions: definitions.iter().map(read_definition).collect(),
            remaining: remaining.to_owned(),
        },
        Err(weedle::Err::Error(error) | weedle::Err::Failure(error)) => SyntaxParse::Failed {
            remaining_len: Some(error.0.len()),
        },
        Err(weedle::Err::Incomplete(_)) => SyntaxParse::Failed { remaining_len: None },
    }
}

/// Copies an identifier's text.
#[verifier::external_body]
fn read_name(identifier: &WeedleIdentifier<'_>) -> String {
    identifier.0.to_owned()
}

/// Reads an interface definition, or a partial one.
#[verifier::external_body]
fn read_definition(value: &WeedleDefinition<'_>) -> SyntaxDefinition {
    match value {
        WeedleDefinition::Interface(v) => SyntaxDefinition::Interface {
            attributed: v.attributes.is_some(), name: read_name(&v.identifier),
            inherits: v.inheritance.as_ref().map(|i| read_name(&i.identifier)),
            members: v.members.body.iter().map(read_member).collect(),
        },
        WeedleDefinition::PartialInterface(v) => SyntaxDefinition::PartialInterface {
            attributed: v.attributes.is_some(), name: read_name(&v.identifier),
            members: v.members.body.iter().map(read_member).collect(),
        },
        other => read_mixin_definition(other),
    }
}

/// Reads an interface mixin definition, or a partial one.
#[verifier::external_body]
fn read_mixin_definition(value: &WeedleDefinition<'_>) -> SyntaxDefinition {
    match value {
        WeedleDefinition::InterfaceMixin(v) => SyntaxDefinition::InterfaceMixin {
            attributed: v.attributes.is_some(), name: read_name(&v.identifier),
            members: v.members.body.iter().map(read_mixin_member).collect(),
        },
        WeedleDefinition::PartialInterfaceMixin(v) => SyntaxDefinition::PartialInterfaceMixin {
            attributed: v.attributes.is_some(), name: read_name(&v.identifier),
            members: v.members.body.iter().map(read_mixin_member).collect(),
        },
        other => read_dictionary_definition(other),
    }
}

/// Reads a dictionary definition, or a partial one.
#[verifier::external_body]
fn read_dictionary_definition(value: &WeedleDefinition<'_>) -> SyntaxDefinition {
    match value {
        WeedleDefinition::Dictionary(v) => SyntaxDefinition::Dictionary {
            attributed: v.attributes.is_some(), name: read_name(&v.identifier),
            inherits: v.inheritance.as_ref().map(|i| read_name(&i.identifier)),
            members: v.members.body.iter().map(read_dictionary_member).collect(),
        },
        WeedleDefinition::PartialDictionary(v) => SyntaxDefinition::PartialDictionary {
            attributed: v.attributes.is_some(), name: read_name(&v.identifier),
            members: v.members.body.iter().map(read_dictionary_member).collect(),
        },
        other => read_enum_or_typedef(other),
    }
}

/// Reads an enum or typedef definition.
#[verifier::external_body]
fn read_enum_or_typedef(value: &WeedleDefinition<'_>) -> SyntaxDefinition {
    match value {
        WeedleDefinition::Enum(v) => SyntaxDefinition::Enum {
            attributed: v.attributes.is_some(), name: read_name(&v.identifier),
            values: v.values.body.list.iter().map(|value| value.0.to_owned()).collect(),
        },
        WeedleDefinition::Typedef(v) => SyntaxDefinition::Typedef {
            attributed: v.attributes.is_some(), name: read_name(&v.identifier),
            type_attributed: v.type_.attributes.is_some(), value_type: read_type(&v.type_.type_),
        },
        other => read_last_definition(other),
    }
}

/// Reads an includes statement or a definition kind that the
/// representation does not hold.
#[verifier::external_body]
fn read_last_definition(value: &WeedleDefinition<'_>) -> SyntaxDefinition {
    match value {
        WeedleDefinition::IncludesStatement(v) => SyntaxDefinition::Includes {
            attributed: v.attributes.is_some(),
            target: read_name(&v.lhs_identifier),
            mixin: read_name(&v.rhs_identifier),
        },
        WeedleDefinition::Callback(_) => SyntaxDefinition::Callback,
        WeedleDefinition::CallbackInterface(_) => SyntaxDefinition::CallbackInterface,
        WeedleDefinition::Implements(_) => SyntaxDefinition::Implements,
        _ => SyntaxDefinition::Namespace,
    }
}

/// Reads an interface attribute.
#[verifier::external_body]
fn read_member(value: &WeedleInterfaceMember<'_>) -> SyntaxMember {
    match value {
        WeedleInterfaceMember::Attribute(v) => SyntaxMember::Attribute {
            attributed: v.attributes.is_some(), modifier: read_attribute_modifier(&v.modifier),
            readonly: v.readonly.is_some(), name: read_name(&v.identifier),
            type_attributed: v.type_.attributes.is_some(), value_type: read_type(&v.type_.type_),
        },
        other => read_operation_member(other),
    }
}

/// Reads an interface operation.
#[verifier::external_body]
fn read_operation_member(value: &WeedleInterfaceMember<'_>) -> SyntaxMember {
    match value {
        WeedleInterfaceMember::Operation(v) => SyntaxMember::Operation {
            attributed: v.attributes.is_some(), special: v.special.is_some(),
            modifier: read_operation_modifier(&v.modifier), name: v.identifier.as_ref().map(read_name),
            return_type: read_return_type(&v.return_type),
            arguments: v.args.body.list.iter().map(read_argument).collect(),
        },
        other => read_other_member(other),
    }
}

/// Reads an interface member that the representation does not hold.
#[verifier::external_body]
fn read_other_member(value: &WeedleInterfaceMember<'_>) -> SyntaxMember {
    match value {
        WeedleInterfaceMember::Const(_) => SyntaxMember::Const,
        WeedleInterfaceMember::Constructor(_) => SyntaxMember::Constructor,
        WeedleInterfaceMember::Stringifier(_) => SyntaxMember::Stringifier,
        _ => SyntaxMember::Collection,
    }
}

/// Reads an attribute's modifier.
#[verifier::external_body]
fn read_attribute_modifier(value: &Option<WeedleAttributeModifier>) -> AttributeModifier {
    match value {
        None => AttributeModifier::Plain,
        Some(WeedleAttributeModifier::Static(_)) => AttributeModifier::Static,
        Some(WeedleAttributeModifier::Stringifier(_)) => AttributeModifier::Stringifier,
        Some(WeedleAttributeModifier::Inherit(_)) => AttributeModifier::Inherit,
    }
}

/// Reads an operation's modifier.
#[verifier::external_body]
fn read_operation_modifier(value: &Option<WeedleOperationModifier>) -> OperationModifier {
    match value {
        None => OperationModifier::Plain,
        Some(WeedleOperationModifier::Static(_)) => OperationModifier::Static,
        Some(WeedleOperationModifier::Stringifier(_)) => OperationModifier::Stringifier,
    }
}

/// Reads an interface mixin attribute.
#[verifier::external_body]
fn read_mixin_member(value: &WeedleMixinMember<'_>) -> SyntaxMixinMember {
    match value {
        WeedleMixinMember::Attribute(v) => SyntaxMixinMember::Attribute {
            attributed: v.attributes.is_some(), stringifier: v.stringifier.is_some(),
            readonly: v.readonly.is_some(), name: read_name(&v.identifier),
            type_attributed: v.type_.attributes.is_some(), value_type: read_type(&v.type_.type_),
        },
        other => read_other_mixin_member(other),
    }
}

/// Reads an interface mixin operation, constant or stringifier.
#[verifier::external_body]
fn read_other_mixin_member(value: &WeedleMixinMember<'_>) -> SyntaxMixinMember {
    match value {
        WeedleMixinMember::Operation(v) => SyntaxMixinMember::Operation {
            attributed: v.attributes.is_some(), stringifier: v.stringifier.is_some(),
            name: v.identifier.as_ref().map(read_name), return_type: read_return_type(&v.return_type),
            arguments: v.args.body.list.iter().map(read_argument).collect(),
        },
        WeedleMixinMember::Const(_) => SyntaxMixinMember::Const,
        _ => SyntaxMixinMember::Stringifier,
    }
}

/// Reads a dictionary member.
#[verifier::external_body]
fn read_dictionary_member(value: &WeedleDictionaryMember<'_>) -> SyntaxDictionaryMember {
    SyntaxDictionaryMember {
        attributed: value.attributes.is_some(),
        required: value.required.is_some(),
        has_default: value.default.is_some(),
        name: read_name(&value.identifier),
        value_type: read_type(&value.type_),
    }
}

/// Reads an operation argument.
#[verifier::external_body]
fn read_argument(value: &WeedleArgument<'_>) -> SyntaxArgument {
    match value {
        WeedleArgument::Single(v) => SyntaxArgument {
            attributed: v.attributes.is_some(), variadic: false, optional: v.optional.is_some(),
            has_default: v.default.is_some(), name: read_name(&v.identifier),
            type_attributed: v.type_.attributes.is_some(), value_type: read_type(&v.type_.type_),
        },
        WeedleArgument::Variadic(v) => SyntaxArgument {
            attributed: v.attributes.is_some(), variadic: true, optional: false, has_default: false,
            name: read_name(&v.identifier), type_attributed: false, value_type: read_type(&v.type_),
        },
    }
}

/// Reads a return type.
#[verifier::external_body]
fn read_return_type(value: &WeedleReturnType<'_>) -> SyntaxType {
    match value {
        WeedleReturnType::Undefined(_) => SyntaxType::Undefined,
        WeedleReturnType::Type(v) => read_type(v),
    }
}

/// Reads a type.
#[verifier::external_body]
fn read_type(value: &WeedleType<'_>) -> SyntaxType {
    match value {
        WeedleType::Single(weedle::types::SingleType::Any(_)) => SyntaxType::Any,
        WeedleType::Single(weedle::types::SingleType::NonAny(v)) => read_non_any(v),
        WeedleType::Union(v) => read_union(&v.type_.body.list, v.q_mark.is_some()),
    }
}

/// Reads the members of a union type.
#[verifier::external_body]
fn read_union(members: &[WeedleUnionMemberType<'_>], nullable: bool) -> SyntaxType {
    SyntaxType::Union { members: members.iter().map(read_union_member).collect(), nullable }
}

/// Reads a member of a union type.
#[verifier::external_body]
fn read_union_member(value: &WeedleUnionMemberType<'_>) -> SyntaxUnionMember {
    match value {
        WeedleUnionMemberType::Single(v) => SyntaxUnionMember {
            attributed: v.attributes.is_some(),
            member: read_non_any(&v.type_),
        },
        WeedleUnionMemberType::Union(v) => SyntaxUnionMember {
            attributed: false,
            member: read_union(&v.type_.body.list, v.q_mark.is_some()),
        },
    }
}

/// Reads a type other than `any`: the generic and numeric types.
#[verifier::external_body]
fn read_non_any(value: &WeedleNonAnyType<'_>) -> SyntaxType {
    match value {
        WeedleNonAnyType::Promise(v) => SyntaxType::Promise { item: Box::new(read_return_type(v.generics.body.as_ref())) },
        WeedleNonAnyType::Sequence(v) => SyntaxType::Sequence {
            item: Box::new(read_type(v.type_.generics.body.as_ref())), nullable: v.q_mark.is_some(),
        },
        WeedleNonAnyType::FrozenArrayType(v) => SyntaxType::FrozenArray {
            item: Box::new(read_type(v.type_.generics.body.as_ref())), nullable: v.q_mark.is_some(),
        },
        WeedleNonAnyType::Integer(v) => read_integer(&v.type_, v.q_mark.is_some()),
        WeedleNonAnyType::FloatingPoint(v) => read_floating_point(&v.type_, v.q_mark.is_some()),
        other => read_plain_type(other),
    }
}

/// Reads an integer type.
#[verifier::external_body]
fn read_integer(value: &WeedleIntegerType, nullable: bool) -> SyntaxType {
    let (width, unsigned) = match value {
        WeedleIntegerType::Short(t) => (IntegerWidth::Short, t.unsigned.is_some()),
        WeedleIntegerType::Long(t) => (IntegerWidth::Long, t.unsigned.is_some()),
        WeedleIntegerType::LongLong(t) => (IntegerWidth::LongLong, t.unsigned.is_some()),
    };
    SyntaxType::Integer { width, unsigned, nullable }
}

/// Reads a floating-point type.
#[verifier::external_body]
fn read_floating_point(value: &WeedleFloatingPointType, nullable: bool) -> SyntaxType {
    let (double, unrestricted) = match value {
        WeedleFloatingPointType::Float(t) => (false, t.unrestricted.is_some()),
        WeedleFloatingPointType::Double(t) => (true, t.unrestricted.is_some()),
    };
    SyntaxType::FloatingPoint { double, unrestricted, nullable }
}

/// Reads the boolean, byte, octet and string types.
#[verifier::external_body]
fn read_plain_type(value: &WeedleNonAnyType<'_>) -> SyntaxType {
    match value {
        WeedleNonAnyType::Boolean(v) => SyntaxType::Boolean { nullable: v.q_mark.is_some() },
        WeedleNonAnyType::Byte(v) => SyntaxType::Byte { nullable: v.q_mark.is_some() },
        WeedleNonAnyType::Octet(v) => SyntaxType::Octet { nullable: v.q_mark.is_some() },
        WeedleNonAnyType::ByteString(v) => read_string(StringType::ByteString, v.q_mark.is_some()),
        WeedleNonAnyType::DOMString(v) => read_string(StringType::DomString, v.q_mark.is_some()),
        WeedleNonAnyType::USVString(v) => read_string(StringType::UsvString, v.q_mark.is_some()),
        other => read_object_type(other),
    }
}

/// A string type.
fn read_string(kind: StringType, nullable: bool) -> (r: SyntaxType)
    ensures
        r == (SyntaxType::String { kind, nullable }),
{
    SyntaxType::String { kind, nullable }
}

/// Reads the object, symbol, observable array, record and named types.
#[verifier::external_body]
fn read_object_type(value: &WeedleNonAnyType<'_>) -> SyntaxType {
    match value {
        WeedleNonAnyType::Object(v) => SyntaxType::Object { nullable: v.q_mark.is_some() },
        WeedleNonAnyType::Symbol(v) => SyntaxType::Symbol { nullable: v.q_mark.is_some() },
        WeedleNonAnyType::ObservableArrayType(_) => SyntaxType::ObservableArray,
        WeedleNonAnyType::RecordType(v) => read_record(v),
        WeedleNonAnyType::Identifier(v) => SyntaxType::Named { name: read_name(&v.type_), nullable: v.q_mark.is_some() },
        other => read_buffer_type(other),
    }
}

/// Reads a record type.
#[verifier::external_body]
fn read_record(value: &WeedleMayBeNull<WeedleRecordType<'_>>) -> SyntaxType {
    let (key, _, item) = &value.type_.generics.body;
    let key = match key.as_ref() {
        weedle::types::RecordKeyType::Byte(_) => SyntaxRecordKey::ByteString,
        weedle::types::RecordKeyType::DOM(_) => SyntaxRecordKey::DomString,
        weedle::types::RecordKeyType::USV(_) => SyntaxRecordKey::UsvString,
        weedle::types::RecordKeyType::NonAny(_) => SyntaxRecordKey::Other,
    };
    SyntaxType::Record { key, value: Box::new(read_type(item.as_ref())), nullable: value.q_mark.is_some() }
}

/// Reads an error, array buffer or data view type, named by keyword.
#[verifier::external_body]
fn read_buffer_type(value: &WeedleNonAnyType<'_>) -> SyntaxType {
    match value {
        WeedleNonAnyType::Error(v) => read_buffer(BufferType::Error, v.q_mark.is_some()),
        WeedleNonAnyType::ArrayBuffer(v) => read_buffer(BufferType::ArrayBuffer, v.q_mark.is_some()),
        WeedleNonAnyType::DataView(v) => read_buffer(BufferType::DataView, v.q_mark.is_some()),
        WeedleNonAnyType::Int8Array(v) => read_buffer(BufferType::Int8Array, v.q_mark.is_some()),
        WeedleNonAnyType::Int16Array(v) => read_buffer(BufferType::Int16Array, v.q_mark.is_some()),
        other => read_int_array_type(other),
    }
}

/// Reads a typed array type, named by keyword.
#[verifier::external_body]
fn read_int_array_type(value: &WeedleNonAnyType<'_>) -> SyntaxType {
    match value {
        WeedleNonAnyType::Int32Array(v) => read_buffer(BufferType::Int32Array, v.q_mark.is_some()),
        WeedleNonAnyType::Uint8Array(v) => read_buffer(BufferType::Uint8Array, v.q_mark.is_some()),
        WeedleNonAnyType::Uint16Array(v) => read_buffer(BufferType::Uint16Array, v.q_mark.is_some()),
        WeedleNonAnyType::Uint32Array(v) => read_buffer(BufferType::Uint32Array, v.q_mark.is_some()),
        WeedleNonAnyType::Uint8ClampedArray(v) => read_buffer(BufferType::Uint8ClampedArray, v.q_mark.is_some()),
        other => read_float_array_type(other),
    }
}

/// Reads a floating-point typed array, a buffer view or a buffer source
/// type, named by keyword; the readers before it hand it no other type.
#[verifier::external_body]
fn read_float_array_type(value: &WeedleNonAnyType<'_>) -> SyntaxType {
    match value {
        WeedleNonAnyType::Float32Array(v) => read_buffer(BufferType::Float32Array, v.q_mark.is_some()),
        WeedleNonAnyType::Float64Array(v) => read_buffer(BufferType::Float64Array, v.q_mark.is_some()),
        WeedleNonAnyType::ArrayBufferView(v) => read_buffer(BufferType::ArrayBufferView, v.q_mark.is_some()),
        WeedleNonAnyType::BufferSource(v) => read_buffer(BufferType::BufferSource, v.q_mark.is_some()),
        _ => read_buffer(BufferType::BufferSource, false),
    }
}

/// A buffer type.
fn read_buffer(kind: BufferType, nullable: bool) -> (r: SyntaxType)
    ensures
        r == (SyntaxType::Buffer { kind, nullable }),
{
    SyntaxType::Buffer { kind, nullable }
}

/// Parses and normalizes standards WebIDL source: the parser's result for
/// the source, turned into a module as `standards_module` does.
pub fn parse_standards(source: &str) -> (r: Result<WebIdlModule, WebIdlError>)
    ensures
        standards_result(source@, weedle_syntax(source@), r),
{
    let parse = weedle_parse(source);
    standards_module(source, parse)
}

/// The standards WebIDL frontend.
#[derive(Clone, Copy, Debug, Default)]
pub struct StandardsWebIdlFrontend;

impl WebIdlFrontend for StandardsWebIdlFrontend {
    open spec fn parses_to(&self, source: Seq<char>, r: Result<WebIdlModule, WebIdlError>) -> bool {
        standards_result(source, weedle_syntax(source), r)
    }

    fn parse(&self, source: &str) -> (r: Result<WebIdlModule, WebIdlError>) {
        parse_standards(source)
    }
}

} // verus!
