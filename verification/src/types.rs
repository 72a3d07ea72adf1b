//! The tables that the database derives from the syntax tree.

use std::collections::HashMap;
use indexmap::IndexMap;
use vstd::prelude::*;
use vstd::std_specs::convert::FromSpecImpl;
use crate::ast::{
    ClassId, EnumId, EnumValueId, Expression, FieldId, SerializerFieldId, VariantConfigId,
    VariantSerializerId,
};
use crate::diagnostics::Span;
use crate::prompt::VariantProperties;
use crate::text::str_eq;

verus! {

/// A test case: the functions it runs and the arguments it passes.
#[derive(Debug)]
pub struct TestCase {
    pub functions: Vec<(String, Span)>,
    /// Each argument by name, with the place of the argument and its value,
    /// in the order in which the names were first written.
    pub args: IndexMap<String, (Span, Expression)>,
    pub args_field_span: Span,
}

/// A printer: a template that renders a type or an enum.
#[derive(Debug)]
pub struct Printer {
    pub template: (String, Span),
}

/// The type of printer.
#[derive(Debug)]
pub enum PrinterType {
    /// For types.
    Type(Printer),
    /// For enums.
    Enum(Printer),
}

impl PrinterType {
    /// The printer, whatever it prints.
    pub open spec fn printer(&self) -> Printer {
        match self {
            PrinterType::Type(printer) => *printer,
            PrinterType::Enum(printer) => *printer,
        }
    }

    /// The code template.
    pub fn template(&self) -> (r: &str)
        ensures
            r@ == self.printer().template.0@,
    {
        match self {
            PrinterType::Type(printer) => printer.template.0.as_str(),
            PrinterType::Enum(printer) => printer.template.0.as_str(),
        }
    }
}

/// How to retry a request.
#[derive(Debug)]
pub struct RetryPolicy {
    /// The maximum number of retries.
    pub max_retries: u32,
    /// The strategy to use.
    pub strategy: RetryPolicyStrategy,
    /// Any additional options.
    pub options: Option<Vec<((String, Span), Expression)>>,
}

/// The strategy to use for retrying a request.
#[derive(Debug, Clone)]
pub enum RetryPolicyStrategy {
    /// Constant delay.
    ConstantDelay(ContantDelayStrategy),
    /// Exponential backoff.
    ExponentialBackoff(ExponentialBackoffStrategy),
}

/// Retrying after the same delay each time.
#[derive(Debug, Clone, Copy, PartialEq, Eq, Structural)]
pub struct ContantDelayStrategy {
    /// The delay in milliseconds.
    pub delay_ms: u32,
}

/// Retrying after a delay that grows by a factor each time.
#[derive(Debug, Clone)]
pub struct ExponentialBackoffStrategy {
    /// The delay in milliseconds.
    pub delay_ms: u32,
    /// The multiplier, as the numeric literal that denotes it.
    pub multiplier: String,
    /// The maximum delay in milliseconds.
    pub max_delay_ms: u32,
}

/// What the database keeps of a template string.
#[derive(Debug, Clone)]
pub struct TemplateStringProperties {
    /// This is dedented and trimmed.
    pub template: String,
}

/// How a class, an enum, a field or a value is written out, where every
/// part is fixed by the schema.
#[derive(Debug)]
pub struct StaticStringAttributes {
    /// Left out when written.
    pub skip: Option<bool>,
    /// The name it is written under.
    pub alias: Option<String>,
    /// Further texts by key, `description` among them.
    pub meta: Vec<(String, String)>,
}

/// How a class, an enum, a field or a value is written out, where a part
/// is known only when the environment is.
#[derive(Debug)]
pub struct DynamicStringAttributes {
    /// The decorations by key, unevaluated.
    pub code: Vec<(String, Expression)>,
}

/// The decorations of one item.
#[derive(Debug)]
pub enum ToStringAttributes {
    Static(StaticStringAttributes),
    Dynamic(DynamicStringAttributes),
}

/// The decorations of a class and of its fields, by position of the field.
#[derive(Debug)]
pub struct ClassAttributes {
    pub field_serilizers: HashMap<u32, ToStringAttributes>,
    pub serilizer: Option<ToStringAttributes>,
}

/// The decorations of an enum and of its values, by position of the value.
#[derive(Debug)]
pub struct EnumAttributes {
    pub value_serilizers: HashMap<u32, ToStringAttributes>,
    pub serilizer: Option<ToStringAttributes>,
}

/// The decorations that one serializer of a variant overrides.
#[derive(Debug)]
pub struct SerializerAttributes {
    pub field_serilizers: HashMap<u32, ToStringAttributes>,
    pub serilizer: Option<ToStringAttributes>,
}

/// The serializers of a variant, by position.
#[derive(Debug)]
pub struct VariantAttributes {
    pub serializers: HashMap<u32, SerializerAttributes>,
}

/// The builtin scalar types.
#[derive(Debug, Copy, Clone, PartialEq, Hash, Eq, Structural)]
#[allow(missing_docs)]
pub enum StaticType {
    Int,
    BigInt,
    Float,
    Boolean,
    String,
    Json,
    Bytes,
}

impl StaticType {
    /// The name of the scalar type in a schema.
    pub open spec fn name_spec(self) -> Seq<char> {
        match self {
            StaticType::Int => "Int"@,
            StaticType::BigInt => "BigInt"@,
            StaticType::Float => "Float"@,
            StaticType::Boolean => "Boolean"@,
            StaticType::String => "String"@,
            StaticType::Json => "Json"@,
            StaticType::Bytes => "Bytes"@,
        }
    }

    /// The scalar type with the given name.
    pub open spec fn from_name(s: Seq<char>) -> Option<StaticType> {
        if s == "Int"@ {
            Some(StaticType::Int)
        } else if s == "BigInt"@ {
            Some(StaticType::BigInt)
        } else if s == "Float"@ {
            Some(StaticType::Float)
        } else if s == "Boolean"@ {
            Some(StaticType::Boolean)
        } else if s == "String"@ {
            Some(StaticType::String)
        } else if s == "Json"@ {
            Some(StaticType::Json)
        } else if s == "Bytes"@ {
            Some(StaticType::Bytes)
        } else {
            None
        }
    }

    /// The string representation of the scalar type in the schema.
    pub fn as_str(&self) -> (r: &'static str)
        ensures
            r@ == self.name_spec(),
    {
        match self {
            StaticType::Int => "Int",
            StaticType::BigInt => "BigInt",
            StaticType::Float => "Float",
            StaticType::Boolean => "Boolean",
            StaticType::String => "String",
            StaticType::Json => "Json",
            StaticType::Bytes => "Bytes",
        }
    }

    /// True if the type is bytes.
    pub fn is_bytes(&self) -> (r: bool)
        ensures
            r == (*self == StaticType::Bytes),
    {
        matches!(self, StaticType::Bytes)
    }

    /// The scalar type that is written `s`.
    pub fn try_from_str(s: &str) -> (r: Option<StaticType>)
        ensures
            r == Self::from_name(s@),
    {
        if str_eq(s, "Int") {
            Some(StaticType::Int)
        } else if str_eq(s, "BigInt") {
            Some(StaticType::BigInt)
        } else if str_eq(s, "Float") {
            Some(StaticType::Float)
        } else if str_eq(s, "Boolean") {
            Some(StaticType::Boolean)
        } else if str_eq(s, "String") {
            Some(StaticType::String)
        } else if str_eq(s, "Json") {
            Some(StaticType::Json)
        } else if str_eq(s, "Bytes") {
            Some(StaticType::Bytes)
        } else {
            None
        }
    }
}

/// An opaque identifier for a field whose decorations are dynamic.
#[derive(Copy, Clone, PartialEq, Debug, Hash, Eq, PartialOrd, Ord, Structural)]
pub struct DynamicFieldId(u32);

/// An opaque identifier for a field whose decorations are static.
#[derive(Copy, Clone, PartialEq, Debug, Eq, Hash, Structural)]
pub struct StaticFieldId(u32);

impl DynamicFieldId {
    /// The position that the identifier stands for.
    pub closed spec fn index(self) -> u32 {
        self.0
    }

    pub fn get(&self) -> (r: u32)
        ensures
            r == self.index(),
    {
        self.0
    }
}

impl StaticFieldId {
    /// The position that the identifier stands for.
    pub closed spec fn index(self) -> u32 {
        self.0
    }

    pub fn get(&self) -> (r: u32)
        ensures
            r == self.index(),
    {
        self.0
    }
}

impl From<SerializerFieldId> for DynamicFieldId {
    fn from(id: SerializerFieldId) -> (r: Self) {
        DynamicFieldId(id.0)
    }
}

impl FromSpecImpl<SerializerFieldId> for DynamicFieldId {
    open spec fn obeys_from_spec() -> bool {
        true
    }

    closed spec fn from_spec(id: SerializerFieldId) -> Self {
        DynamicFieldId(id.0)
    }
}

impl From<FieldId> for DynamicFieldId {
    fn from(id: FieldId) -> (r: Self) {
        DynamicFieldId(id.0)
    }
}

impl FromSpecImpl<FieldId> for DynamicFieldId {
    open spec fn obeys_from_spec() -> bool {
        true
    }

    closed spec fn from_spec(id: FieldId) -> Self {
        DynamicFieldId(id.0)
    }
}

impl From<EnumValueId> for DynamicFieldId {
    fn from(id: EnumValueId) -> (r: Self) {
        DynamicFieldId(id.0)
    }
}

impl FromSpecImpl<EnumValueId> for DynamicFieldId {
    open spec fn obeys_from_spec() -> bool {
        true
    }

    closed spec fn from_spec(id: EnumValueId) -> Self {
        DynamicFieldId(id.0)
    }
}

impl From<SerializerFieldId> for StaticFieldId {
    fn from(id: SerializerFieldId) -> (r: Self) {
        StaticFieldId(id.0)
    }
}

impl FromSpecImpl<SerializerFieldId> for StaticFieldId {
    open spec fn obeys_from_spec() -> bool {
        true
    }

    closed spec fn from_spec(id: SerializerFieldId) -> Self {
        StaticFieldId(id.0)
    }
}

impl From<FieldId> for StaticFieldId {
    fn from(id: FieldId) -> (r: Self) {
        StaticFieldId(id.0)
    }
}

impl FromSpecImpl<FieldId> for StaticFieldId {
    open spec fn obeys_from_spec() -> bool {
        true
    }

    closed spec fn from_spec(id: FieldId) -> Self {
        StaticFieldId(id.0)
    }
}

impl From<EnumValueId> for StaticFieldId {
    fn from(id: EnumValueId) -> (r: Self) {
        StaticFieldId(id.0)
    }
}

impl FromSpecImpl<EnumValueId> for StaticFieldId {
    open spec fn obeys_from_spec() -> bool {
        true
    }

    closed spec fn from_spec(id: EnumValueId) -> Self {
        StaticFieldId(id.0)
    }
}

/// A field identifier, told apart by the kind of its decorations.
#[derive(Copy, Clone, PartialEq, Debug, Eq, Structural)]
pub enum RefinedFieldId {
    Static(StaticFieldId),
    Dynamic(DynamicFieldId),
}

/// The tables of the database, each keyed by the position of the
/// declaration it belongs to.
#[derive(Debug)]
pub struct Types {
    pub enum_attributes: HashMap<usize, EnumAttributes>,
    pub class_attributes: HashMap<usize, ClassAttributes>,
    /// The names of the types that the fields of a class refer to, each
    /// once, in the order of their first occurrence.
    pub class_dependencies: HashMap<usize, Vec<String>>,
    pub variant_attributes: HashMap<usize, VariantAttributes>,
    pub variant_properties: HashMap<usize, VariantProperties>,
    pub retry_policies: HashMap<usize, RetryPolicy>,
    pub printers: HashMap<usize, PrinterType>,
    pub test_cases: HashMap<usize, TestCase>,
    pub template_strings: HashMap<usize, TemplateStringProperties>,
}

impl Types {
    /// Every table is empty.
    pub open spec fn is_empty(&self) -> bool {
        &&& self.enum_attributes@ == Map::<usize, EnumAttributes>::empty()
        &&& self.class_attributes@ == Map::<usize, ClassAttributes>::empty()
        &&& self.class_dependencies@ == Map::<usize, Vec<String>>::empty()
        &&& self.variant_attributes@ == Map::<usize, VariantAttributes>::empty()
        &&& self.variant_properties@ == Map::<usize, VariantProperties>::empty()
        &&& self.retry_policies@ == Map::<usize, RetryPolicy>::empty()
        &&& self.printers@ == Map::<usize, PrinterType>::empty()
        &&& self.test_cases@ == Map::<usize, TestCase>::empty()
        &&& self.template_strings@ == Map::<usize, TemplateStringProperties>::empty()
    }

    /// Tables without entries.
    pub fn new() -> (t: Types)
        ensures
            t.is_empty(),
    {
        Types {
            enum_attributes: HashMap::new(),
            class_attributes: HashMap::new(),
            class_dependencies: HashMap::new(),
            variant_attributes: HashMap::new(),
            variant_properties: HashMap::new(),
            retry_policies: HashMap::new(),
            printers: HashMap::new(),
            test_cases: HashMap::new(),
            template_strings: HashMap::new(),
        }
    }

    /// Whether the decorations recorded for a field of a class are dynamic.
    pub open spec fn class_field_is_dynamic(&self, class_id: ClassId, field_id: FieldId) -> bool {
        &&& self.class_attributes@.contains_key(class_id.0)
        &&& self.class_attributes@[class_id.0].field_serilizers@.contains_key(field_id.0)
        &&& self.class_attributes@[class_id.0].field_serilizers@[field_id.0] is Dynamic
    }

    /// Whether the decorations recorded for a value of an enum are dynamic.
    pub open spec fn enum_value_is_dynamic(&self, enum_id: EnumId, value_id: EnumValueId) -> bool {
        &&& self.enum_attributes@.contains_key(enum_id.0)
        &&& self.enum_attributes@[enum_id.0].value_serilizers@.contains_key(value_id.0)
        &&& self.enum_attributes@[enum_id.0].value_serilizers@[value_id.0] is Dynamic
    }

    /// Whether the decorations that a serializer of a variant records for a
    /// field are dynamic.
    pub open spec fn serializer_field_is_dynamic(
        &self,
        variant_id: VariantConfigId,
        serializer_id: VariantSerializerId,
        value_id: SerializerFieldId,
    ) -> bool {
        &&& self.variant_attributes@.contains_key(variant_id.0)
        &&& self.variant_attributes@[variant_id.0].serializers@.contains_key(serializer_id.0)
        &&& self.variant_attributes@[variant_id.0].serializers@[serializer_id.0].field_serilizers@.contains_key(
        value_id.0)
        &&& self.variant_attributes@[variant_id.0].serializers@[serializer_id.0].field_serilizers@[value_id.0] is Dynamic
    }

    /// The identifier of a class field, by the kind of its decorations.
    pub fn refine_class_field(&self, class_id: ClassId, field_id: FieldId) -> (r: RefinedFieldId)
        ensures
            match r {
                RefinedFieldId::Dynamic(id) => self.class_field_is_dynamic(class_id, field_id) && id.index() == field_id.0,
                RefinedFieldId::Static(id) => !self.class_field_is_dynamic(class_id, field_id) && id.index() == field_id.0,
            },
    {
        match self.class_attributes.get(&class_id.0) {
            Some(attrs) => match attrs.field_serilizers.get(&field_id.0) {
                Some(ToStringAttributes::Dynamic(_attrs)) => RefinedFieldId::Dynamic(
                    DynamicFieldId::from(field_id),
                ),
                _ => RefinedFieldId::Static(StaticFieldId::from(field_id)),
            },
            None => RefinedFieldId::Static(StaticFieldId::from(field_id)),
        }
    }

    /// The identifier of an enum value, by the kind of its decorations.
    pub fn refine_enum_value(&self, enum_id: EnumId, value_id: EnumValueId) -> (r: RefinedFieldId)
        ensures
            match r {
                RefinedFieldId::Dynamic(id) => self.enum_value_is_dynamic(enum_id, value_id) && id.index() == value_id.0,
                RefinedFieldId::Static(id) => !self.enum_value_is_dynamic(enum_id, value_id) && id.index() == value_id.0,
            },
    {
        match self.enum_attributes.get(&enum_id.0) {
            Some(attrs) => match attrs.value_serilizers.get(&value_id.0) {
                Some(ToStringAttributes::Dynamic(_attrs)) => RefinedFieldId::Dynamic(
                    DynamicFieldId::from(value_id),
                ),
                _ => RefinedFieldId::Static(StaticFieldId::from(value_id)),
            },
            None => RefinedFieldId::Static(StaticFieldId::from(value_id)),
        }
    }

    /// The identifier of a field of a serializer, by the kind of its decorations.
    pub fn refine_serializer_field(
        &self,
        variant_id: VariantConfigId,
        serializer_id: VariantSerializerId,
        value_id: SerializerFieldId,
    ) -> (r: RefinedFieldId)
        ensures
            match r {
                RefinedFieldId::Dynamic(id) => self.serializer_field_is_dynamic(variant_id, serializer_id, value_id) && id.index() == value_id.0,
                RefinedFieldId::Static(id) => !self.serializer_field_is_dynamic(variant_id, serializer_id, value_id) && id.index() == value_id.0,
            },
    {
        let serializer = match self.variant_attributes.get(&variant_id.0) {
            Some(r) => r.serializers.get(&serializer_id.0),
            None => None,
        };
        match serializer {
            Some(attrs) => match attrs.field_serilizers.get(&value_id.0) {
                Some(ToStringAttributes::Dynamic(_)) => RefinedFieldId::Dynamic(
                    DynamicFieldId::from(value_id),
                ),
                _ => RefinedFieldId::Static(StaticFieldId::from(value_id)),
            },
            None => RefinedFieldId::Static(StaticFieldId::from(value_id)),
        }
    }
}

} // verus!
