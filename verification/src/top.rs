//! Top-level declarations.

use vstd::prelude::*;
use crate::ast::{
    Class, ClassId, Configuration, ConfigurationId, Enum, EnumId, Identifier, TemplateString,
    TemplateStringId, TopId, Variant, VariantConfigId,
};
use crate::diagnostics::Span;

verus! {

/// A top-level declaration of a schema, by its kind.
#[derive(Debug, PartialEq)]
pub enum Top {
    /// An enum declaration.
    Enum(Enum),
    /// A class declaration.
    Class(Class),
    /// A variant of a function.
    Variant(Variant),
    /// A template string.
    TemplateString(TemplateString),
    /// A named configuration block.
    Config(Configuration),
}

/// The kinds of top-level declarations.
#[derive(Clone, Copy, Debug, PartialEq, Eq, Structural)]
pub enum TopKind {
    Enum,
    Class,
    Variant,
    TemplateString,
    Config,
}

impl Top {
    /// The kind of the declaration.
    pub open spec fn kind_spec(&self) -> TopKind {
        match self {
            Top::Enum(_) => TopKind::Enum,
            Top::Class(_) => TopKind::Class,
            Top::Variant(_) => TopKind::Variant,
            Top::TemplateString(_) => TopKind::TemplateString,
            Top::Config(_) => TopKind::Config,
        }
    }

    /// The kind of the declaration.
    pub fn kind(&self) -> (r: TopKind)
        ensures
            r == self.kind_spec(),
    {
        match self {
            Top::Enum(_) => TopKind::Enum,
            Top::Class(_) => TopKind::Class,
            Top::Variant(_) => TopKind::Variant,
            Top::TemplateString(_) => TopKind::TemplateString,
            Top::Config(_) => TopKind::Config,
        }
    }

    /// The word for the kind of the declaration.
    pub open spec fn kind_name(&self) -> Seq<char> {
        match self {
            Top::Enum(_) => "enum"@,
            Top::Class(_) => "class"@,
            Top::TemplateString(_) => "template_string"@,
            Top::Variant(v) => if v.is_llm_spec() {
                "impl<llm>"@
            } else {
                "impl<?>"@
            },
            Top::Config(c) => c.kind_name(),
        }
    }

    /// A string saying what kind of item this is.
    pub fn get_type(&self) -> (r: &str)
        ensures
            r@ == self.kind_name(),
    {
        match self {
            Top::Enum(_) => "enum",
            Top::Class(_) => "class",
            Top::TemplateString(_) => "template_string",
            Top::Variant(v) => if v.is_llm() {
                "impl<llm>"
            } else {
                "impl<?>"
            },
            Top::Config(c) => c.get_type(),
        }
    }

    /// The declaration as an enum, if it is one.
    pub fn as_enum(&self) -> (r: Option<&Enum>)
        ensures
            match *self {
                Top::Enum(e) => r == Some(&e),
                _ => r is None,
            },
    {
        match self {
            Top::Enum(e) => Some(e),
            _ => None,
        }
    }

    /// The declaration as a class, if it is one.
    pub fn as_class(&self) -> (r: Option<&Class>)
        ensures
            match *self {
                Top::Class(c) => r == Some(&c),
                _ => r is None,
            },
    {
        match self {
            Top::Class(class) => Some(class),
            _ => None,
        }
    }

    /// The declaration as a variant, if it is one.
    pub fn as_variant(&self) -> (r: Option<&Variant>)
        ensures
            match *self {
                Top::Variant(v) => r == Some(&v),
                _ => r is None,
            },
    {
        match self {
            Top::Variant(variant) => Some(variant),
            _ => None,
        }
    }

    /// The declaration as a template string, if it is one.
    pub fn as_template_string(&self) -> (r: Option<&TemplateString>)
        ensures
            match *self {
                Top::TemplateString(t) => r == Some(&t),
                _ => r is None,
            },
    {
        match self {
            Top::TemplateString(t) => Some(t),
            _ => None,
        }
    }

    /// The declaration as a configuration block, if it is one.
    pub fn as_configurations(&self) -> (r: Option<&Configuration>)
        ensures
            match *self {
                Top::Config(c) => r == Some(&c),
                _ => r is None,
            },
    {
        match self {
            Top::Config(config) => Some(config),
            _ => None,
        }
    }

    /// The declared name.
    pub open spec fn name_spec(&self) -> Seq<char> {
        match self {
            Top::Enum(x) => x.name@,
            Top::Class(x) => x.name@,
            Top::TemplateString(x) => x.name@,
            Top::Variant(x) => x.name@,
            Top::Config(x) => x.block_spec().name@,
        }
    }

    /// The declared name.
    pub fn name(&self) -> (r: &str)
        ensures
            r@ == self.name_spec(),
    {
        match self {
            Top::Enum(x) => x.name.as_str(),
            Top::Class(x) => x.name.as_str(),
            Top::TemplateString(x) => x.name.as_str(),
            Top::Variant(x) => x.name.as_str(),
            Top::Config(x) => x.block().name.as_str(),
        }
    }

    /// The name of the item, as a plain identifier.
    pub fn identifier(&self) -> (r: Identifier)
        ensures
            r matches Identifier::Local(s) && s@ == self.name_spec(),
    {
        Identifier::Local(self.name().to_string())
    }

    /// Where the declaration stands.
    pub open spec fn span_spec(&self) -> Span {
        match self {
            Top::Enum(x) => x.span,
            Top::Class(x) => x.span,
            Top::TemplateString(x) => x.span,
            Top::Variant(x) => x.span,
            Top::Config(x) => x.block_spec().span,
        }
    }

    /// Where the declaration stands.
    pub fn span(&self) -> (r: Span)
        ensures
            r == self.span_spec(),
    {
        match self {
            Top::Enum(en) => en.span,
            Top::Class(class) => class.span,
            Top::TemplateString(template) => template.span,
            Top::Variant(variant) => variant.span,
            Top::Config(config) => config.block().span,
        }
    }

    /// The identity of the declaration when it stands at position `index`.
    pub open spec fn id_spec(&self, index: usize) -> TopId {
        match self {
            Top::Enum(_) => TopId::Enum(EnumId(index)),
            Top::Class(_) => TopId::Class(ClassId(index)),
            Top::Variant(_) => TopId::Variant(VariantConfigId(index)),
            Top::TemplateString(_) => TopId::TemplateString(TemplateStringId(index)),
            Top::Config(c) => TopId::Config(
                (
                    ConfigurationId(index),
                    match c {
                        Configuration::RetryPolicy(_) => "retry_policy",
                        Configuration::Printer(_) => "printer",
                        Configuration::TestCase(_) => "test",
                    },
                ),
            ),
        }
    }

    /// The identity of the declaration when it stands at position `index`.
    pub fn id(&self, index: usize) -> (r: TopId)
        ensures
            r == self.id_spec(index),
    {
        match self {
            Top::Enum(_) => TopId::Enum(EnumId(index)),
            Top::Class(_) => TopId::Class(ClassId(index)),
            Top::Variant(_) => TopId::Variant(VariantConfigId(index)),
            Top::TemplateString(_) => TopId::TemplateString(TemplateStringId(index)),
            Top::Config(c) => TopId::Config(
                (
                    ConfigurationId(index),
                    match c {
                        Configuration::RetryPolicy(_) => "retry_policy",
                        Configuration::Printer(_) => "printer",
                        Configuration::TestCase(_) => "test",
                    },
                ),
            ),
        }
    }
}

} // verus!
