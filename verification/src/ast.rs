//! The syntax tree of a schema, as the parser hands it over.

use vstd::prelude::*;
use crate::diagnostics::Span;
use crate::prompt::PromptVariable;
use crate::text::{join, joined, str_eq, string_views};

verus! {

/// The primitive scalar kinds.
#[derive(Clone, Copy, Debug, PartialEq, Eq, Structural, Hash)]
pub enum TypeValue {
    String,
    Int,
    Float,
    Bool,
    Null,
    Image,
}

impl TypeValue {
    /// The name of the kind as it is written in a schema.
    pub open spec fn name_spec(self) -> Seq<char> {
        match self {
            TypeValue::String => "string"@,
            TypeValue::Int => "int"@,
            TypeValue::Float => "float"@,
            TypeValue::Bool => "bool"@,
            TypeValue::Null => "null"@,
            TypeValue::Image => "image"@,
        }
    }

    /// The name of the kind as it is written in a schema.
    pub fn name(&self) -> (r: &'static str)
        ensures
            r@ == self.name_spec(),
    {
        match self {
            TypeValue::String => "string",
            TypeValue::Int => "int",
            TypeValue::Float => "float",
            TypeValue::Bool => "bool",
            TypeValue::Null => "null",
            TypeValue::Image => "image",
        }
    }
}

/// A name in a schema, by the role it was recognised in.
#[derive(Debug, Clone, PartialEq)]
pub enum Identifier {
    /// A variable of the environment.
    ENV(String),
    /// A dotted path, split at the dots.
    Ref(Vec<String>),
    /// A plain name.
    Local(String),
    /// The name of a primitive scalar kind.
    Primitive(TypeValue),
    /// A name written as a string literal.
    String(String),
    /// Text that is no valid name.
    Invalid(String),
}

impl Identifier {
    /// The name as text; for a path, its parts joined by dots.
    pub open spec fn name_spec(&self) -> Seq<char> {
        match self {
            Identifier::ENV(s) => s@,
            Identifier::Ref(path) => joined(string_views(path@), "."@),
            Identifier::Local(s) => s@,
            Identifier::Primitive(t) => t.name_spec(),
            Identifier::String(s) => s@,
            Identifier::Invalid(s) => s@,
        }
    }

    /// The name as text.
    pub fn name(&self) -> (r: String)
        ensures
            r@ == self.name_spec(),
    {
        match self {
            Identifier::ENV(s) => s.clone(),
            Identifier::Ref(path) => join(path, "."),
            Identifier::Local(s) => s.clone(),
            Identifier::Primitive(t) => t.name().to_string(),
            Identifier::String(s) => s.clone(),
            Identifier::Invalid(s) => s.clone(),
        }
    }

    /// The identifier can stand for a type: it is a plain name, a path or a
    /// primitive.
    pub open spec fn is_valid_type_spec(&self) -> bool {
        self is Ref || self is Local || self is Primitive
    }

    pub fn is_valid_type(&self) -> (r: bool)
        ensures
            r == self.is_valid_type_spec(),
    {
        match self {
            Identifier::ENV(_) => false,
            Identifier::Ref(_) => true,
            Identifier::Local(_) => true,
            Identifier::Primitive(_) => true,
            Identifier::String(_) => false,
            Identifier::Invalid(_) => false,
        }
    }
}

/// Whether a type may be absent.
#[derive(Clone, Copy, Debug, PartialEq, Eq, Structural)]
pub enum FieldArity {
    Required,
    Optional,
}

impl FieldArity {
    pub fn is_optional(&self) -> (r: bool)
        ensures
            r == (*self == FieldArity::Optional),
    {
        match self {
            FieldArity::Required => false,
            FieldArity::Optional => true,
        }
    }
}

/// A type as written in a schema.
#[derive(Debug, PartialEq)]
pub enum FieldType {
    /// A named type.
    Identifier(FieldArity, Identifier),
    /// A list of the inner type, nested as many times as the dimension says.
    List(Box<FieldType>, u32),
    Tuple(FieldArity, Vec<FieldType>),
    Union(FieldArity, Vec<FieldType>),
    /// A dictionary from the first type to the second.
    Dictionary(Box<FieldType>, Box<FieldType>),
}

/// A raw string block, optionally tagged with the language it is written in.
#[derive(Debug, PartialEq)]
pub struct RawString {
    pub value: String,
    pub language: Option<String>,
    pub span: Span,
}

impl RawString {
    /// An untagged raw string.
    pub fn new(value: String, span: Span) -> (r: RawString)
        ensures
            r.value@ == value@,
            r.language is None,
            r.span == span,
    {
        RawString { value, language: None, span }
    }

    /// The text of the block.
    pub fn value(&self) -> (v: &str)
        ensures
            v@ == self.value@,
    {
        self.value.as_str()
    }

    /// A copy of the block.
    pub fn duplicate(&self) -> (r: RawString)
        ensures
            r.value@ == self.value@,
            r.span == self.span,
            match (r.language, self.language) {
                (Some(a), Some(b)) => a@ == b@,
                (None, None) => true,
                _ => false,
            },
    {
        RawString {
            value: self.value.clone(),
            language: match &self.language {
                Some(l) => Some(l.clone()),
                None => None,
            },
            span: self.span,
        }
    }
}

/// A value as written in a schema.
#[derive(Debug, PartialEq)]
pub enum Expression {
    Identifier(Identifier),
    Bool(bool),
    /// A number, kept as it was written.
    Numeric(String),
    String(String),
    RawString(RawString),
    List(Vec<Expression>),
    /// Keys and values in the order they were written.
    Mapping(Vec<(Expression, Expression)>),
}

/// A decoration such as `@alias("x")`.
#[derive(Debug, PartialEq)]
pub struct Attribute {
    pub name: String,
    pub arguments: Vec<Expression>,
    pub span: Span,
}

/// A field of a class.
#[derive(Debug, PartialEq)]
pub struct Field {
    pub name: String,
    pub field_type: FieldType,
    pub attributes: Vec<Attribute>,
    pub span: Span,
}

/// A class declaration.
#[derive(Debug, PartialEq)]
pub struct Class {
    pub name: String,
    pub fields: Vec<Field>,
    pub attributes: Vec<Attribute>,
    pub span: Span,
}

/// A value of an enum.
#[derive(Debug, PartialEq)]
pub struct EnumValue {
    pub name: String,
    pub attributes: Vec<Attribute>,
    pub span: Span,
}

/// An enum declaration.
#[derive(Debug, PartialEq)]
pub struct Enum {
    pub name: String,
    pub values: Vec<EnumValue>,
    pub attributes: Vec<Attribute>,
    pub span: Span,
}

/// A `key value` line of a variant or of a configuration block.
#[derive(Debug, PartialEq)]
pub struct ConfigBlockProperty {
    pub name: String,
    /// What stands between angle brackets behind the key, if anything.
    pub template_args: Option<Vec<Expression>>,
    pub value: Option<Expression>,
    /// Where the key stands.
    pub key_span: Span,
    /// Where the value stands.
    pub value_span: Span,
    /// Where the whole line stands.
    pub span: Span,
}

/// An adapter of a variant: a conversion from one type to another.
#[derive(Debug, PartialEq)]
pub struct Adapter {
    pub from: FieldType,
    pub to: FieldType,
    pub converter: Expression,
    pub from_span: Span,
    pub to_span: Span,
    pub converter_span: Span,
    pub span: Span,
}

/// A field of a serializer override.
#[derive(Debug, PartialEq)]
pub struct SerializerField {
    pub name: String,
    pub attributes: Vec<Attribute>,
    pub span: Span,
}

/// A serializer override inside a variant.
#[derive(Debug, PartialEq)]
pub struct Serializer {
    pub name: String,
    pub fields: Vec<SerializerField>,
    pub attributes: Vec<Attribute>,
    pub span: Span,
}

/// A variant: one implementation of a function.
#[derive(Debug, PartialEq)]
pub struct Variant {
    pub name: String,
    pub function_name: String,
    /// What stands between the angle brackets of `impl<..>`.
    pub variant_type: String,
    pub fields: Vec<ConfigBlockProperty>,
    pub serializers: Vec<Serializer>,
    pub adapters: Vec<Adapter>,
    /// What the template parser made of the raw prompt block: the
    /// placeholder markers that it located, in the order of the text, or,
    /// where it rejected the block, what it found wrong, each finding with
    /// its place. Not read where the prompt is no raw block.
    pub prompt_markers: Result<Vec<PromptVariable>, Vec<(String, Span)>>,
    /// Where the name stands.
    pub name_span: Span,
    pub span: Span,
}

/// A template string declaration.
#[derive(Debug, PartialEq)]
pub struct TemplateString {
    pub name: String,
    pub params: Vec<Field>,
    pub value: Expression,
    pub span: Span,
}

/// A named block of `key value` lines.
#[derive(Debug, PartialEq)]
pub struct ConfigBlock {
    pub name: String,
    /// What stands between angle brackets behind the keyword, if anything.
    pub argument: Option<String>,
    pub fields: Vec<ConfigBlockProperty>,
    pub span: Span,
}

/// A configuration block, by its keyword.
#[derive(Debug, PartialEq)]
pub enum Configuration {
    RetryPolicy(ConfigBlock),
    Printer(ConfigBlock),
    TestCase(ConfigBlock),
}

/// Position of a declaration among the top-level declarations.
#[derive(Clone, Copy, Debug, PartialEq, Eq, Structural)]
pub struct EnumId(pub usize);

#[derive(Clone, Copy, Debug, PartialEq, Eq, Structural)]
pub struct ClassId(pub usize);

#[derive(Clone, Copy, Debug, PartialEq, Eq, Structural)]
pub struct VariantConfigId(pub usize);

#[derive(Clone, Copy, Debug, PartialEq, Eq, Structural)]
pub struct TemplateStringId(pub usize);

#[derive(Clone, Copy, Debug, PartialEq, Eq, Structural)]
pub struct ConfigurationId(pub usize);

/// Position of a field in its class.
#[derive(Clone, Copy, Debug, PartialEq, Eq, Structural)]
pub struct FieldId(pub u32);

/// Position of a value in its enum.
#[derive(Clone, Copy, Debug, PartialEq, Eq, Structural)]
pub struct EnumValueId(pub u32);

/// Position of a field in its serializer.
#[derive(Clone, Copy, Debug, PartialEq, Eq, Structural)]
pub struct SerializerFieldId(pub u32);

/// Position of a serializer in its variant.
#[derive(Clone, Copy, Debug, PartialEq, Eq, Structural)]
pub struct VariantSerializerId(pub u32);

/// The identity of a top-level declaration, by its kind.
#[derive(Clone, Copy, Debug)]
pub enum TopId {
    Enum(EnumId),
    Class(ClassId),
    Variant(VariantConfigId),
    TemplateString(TemplateStringId),
    /// A configuration block and its keyword.
    Config((ConfigurationId, &'static str)),
}

impl Variant {
    /// The variant is bound to a language model.
    pub open spec fn is_llm_spec(&self) -> bool {
        self.variant_type@ == "llm"@
    }

    pub fn is_llm(&self) -> (r: bool)
        ensures
            r == self.is_llm_spec(),
    {
        str_eq(self.variant_type.as_str(), "llm")
    }
}

impl Configuration {
    /// The block, whatever its keyword.
    pub open spec fn block_spec(&self) -> ConfigBlock {
        match self {
            Configuration::RetryPolicy(b) => *b,
            Configuration::Printer(b) => *b,
            Configuration::TestCase(b) => *b,
        }
    }

    pub fn block(&self) -> (b: &ConfigBlock)
        ensures
            *b == self.block_spec(),
    {
        match self {
            Configuration::RetryPolicy(b) => b,
            Configuration::Printer(b) => b,
            Configuration::TestCase(b) => b,
        }
    }

    /// The keyword of the block.
    pub open spec fn kind_name(&self) -> Seq<char> {
        match self {
            Configuration::RetryPolicy(_) => "retry_policy"@,
            Configuration::Printer(_) => "printer"@,
            Configuration::TestCase(_) => "test"@,
        }
    }

    /// A string saying what kind of block this is.
    pub fn get_type(&self) -> (r: &'static str)
        ensures
            r@ == self.kind_name(),
    {
        match self {
            Configuration::RetryPolicy(_) => "retry_policy",
            Configuration::Printer(_) => "printer",
            Configuration::TestCase(_) => "test",
        }
    }
}

/// The keywords of the configuration blocks are three different words.
pub proof fn lemma_keywords_differ()
    ensures
        "retry_policy"@ != "printer"@,
        "retry_policy"@ != "test"@,
        "printer"@ != "test"@,
{
    reveal_strlit("retry_policy");
    reveal_strlit("printer");
    reveal_strlit("test");
    assert("retry_policy"@.len() == 12);
    assert("printer"@.len() == 7);
    assert("test"@.len() == 4);
}

/// The declarations of a schema, in the order they were added.
#[derive(Debug)]
pub struct SchemaAst {
    pub tops: Vec<super::top::Top>,
}

} // verus!
