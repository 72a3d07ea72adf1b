//! Read-only handles into the database, and the lookups that make them.

use vstd::prelude::*;
use vstd::std_specs::cmp::{PartialEqSpec, PartialEqSpecImpl};
use crate::ast::{
    Class, ClassId, Configuration, ConfigurationId, Enum, EnumId, FieldType, Identifier,
    TemplateString, TemplateStringId, TypeValue, Variant, VariantConfigId,
};
use crate::diagnostics::Span;
use crate::parser_database::{
    jinja_type, jinja_types, lemma_jinja_types, lemma_raw_types, lookup, named_type, positions,
    raw_type, raw_types, valid_names, NamedType, ParserDatabase,
};
use crate::prompt::{PromptAst, VariantProperties};
use crate::semantic::{
    lemma_jinja_views_are_views, lemma_semantic_views_are_views, nested_jinja_list, nested_list,
    JinjaType, SemanticType,
};
use crate::text::{str_eq, string_views};
use crate::top::{Top, TopKind};
use crate::types::{PrinterType, RetryPolicy, TestCase, ToStringAttributes};

verus! {

/// A generic walker: a database and the identity of one element in it.
#[derive(Debug)]
pub struct Walker<'db, I> {
    /// The database being traversed.
    pub db: &'db ParserDatabase,
    /// The identifier of the focused element.
    pub id: I,
}

/// A class declaration in the database.
pub type ClassWalker<'db> = Walker<'db, ClassId>;

/// An enum declaration in the database.
pub type EnumWalker<'db> = Walker<'db, EnumId>;

/// A variant in the database.
pub type VariantWalker<'db> = Walker<'db, VariantConfigId>;

/// A template string in the database.
pub type TemplateStringWalker<'db> = Walker<'db, TemplateStringId>;

/// A configuration block in the database, with its keyword.
pub type ConfigurationWalker<'db> = Walker<'db, (ConfigurationId, &'static str)>;

/// A class or an enum in the database.
#[derive(Debug)]
pub enum TypeWalker<'db> {
    Class(ClassWalker<'db>),
    Enum(EnumWalker<'db>),
}

impl<'db> TypeWalker<'db> {
    /// The walker stands in `db` on the class or enum `t`.
    pub open spec fn is(&self, db: &ParserDatabase, t: NamedType) -> bool {
        match *self {
            TypeWalker::Class(w) => t == NamedType::Class(w.id.0 as int) && *w.db == *db
                && w.valid(),
            TypeWalker::Enum(w) => t == NamedType::Enum(w.id.0 as int) && *w.db == *db
                && w.valid(),
        }
    }
}

impl<'db, I> Walker<'db, I> {
    /// Traverse something else in the same schema.
    pub fn walk<J>(self, other: J) -> (w: Walker<'db, J>)
        ensures
            *w.db == *self.db,
            w.id == other,
    {
        self.db.walk(other)
    }
}

/// The type of a value that is absent or of type `t`.
fn absent_or(t: JinjaType) -> (r: JinjaType)
    ensures
        r@ == crate::semantic::JinjaTypeView::Optional(Box::new(t@)),
{
    let ghost inner = t@;
    let r = JinjaType::Optional(Box::new(t));
    assert(r@ == crate::semantic::JinjaTypeView::Optional(Box::new(inner)));
    r
}

impl<'db, I: PartialEq> PartialEq for Walker<'db, I> {
    fn eq(&self, other: &Self) -> (r: bool) {
        self.id.eq(&other.id)
    }
}

impl<'db, I: PartialEq> PartialEqSpecImpl for Walker<'db, I> {
    open spec fn obeys_eq_spec() -> bool {
        I::obeys_eq_spec()
    }

    /// Two walkers are equal where they stand on the same element.
    open spec fn eq_spec(&self, other: &Self) -> bool {
        self.id.eq_spec(&other.id)
    }
}

impl<'db> ClassWalker<'db> {
    /// The walker stands on a class.
    pub open spec fn valid(&self) -> bool {
        self.id.0 < self.db.ast.tops@.len() && self.db.ast.tops@[self.id.0 as int] is Class
    }

    /// The class declaration.
    pub fn ast_class(&self) -> (r: &'db Class)
        requires
            self.valid(),
        ensures
            self.db.ast.tops@[self.id.0 as int] == Top::Class(*r),
    {
        match &self.db.ast.tops[self.id.0] {
            Top::Class(c) => c,
            _ => vstd::pervasive::unreached(),
        }
    }

    /// The name of the class.
    pub fn name(&self) -> (r: &'db str)
        requires
            self.valid(),
        ensures
            r@ == self.db.ast.tops@[self.id.0 as int].name_spec(),
    {
        self.ast_class().name.as_str()
    }
}

impl<'db> EnumWalker<'db> {
    /// The walker stands on an enum.
    pub open spec fn valid(&self) -> bool {
        self.id.0 < self.db.ast.tops@.len() && self.db.ast.tops@[self.id.0 as int] is Enum
    }

    /// The enum declaration.
    pub fn ast_enum(&self) -> (r: &'db Enum)
        requires
            self.valid(),
        ensures
            self.db.ast.tops@[self.id.0 as int] == Top::Enum(*r),
    {
        match &self.db.ast.tops[self.id.0] {
            Top::Enum(e) => e,
            _ => vstd::pervasive::unreached(),
        }
    }

    /// The name of the enum.
    pub fn name(&self) -> (r: &'db str)
        requires
            self.valid(),
        ensures
            r@ == self.db.ast.tops@[self.id.0 as int].name_spec(),
    {
        self.ast_enum().name.as_str()
    }
}

impl<'db> TemplateStringWalker<'db> {
    /// The walker stands on a template string.
    pub open spec fn valid(&self) -> bool {
        self.id.0 < self.db.ast.tops@.len() && self.db.ast.tops@[self.id.0 as int]
            is TemplateString
    }

    /// The template string declaration.
    pub fn ast_node(&self) -> (r: &'db TemplateString)
        requires
            self.valid(),
        ensures
            self.db.ast.tops@[self.id.0 as int] == Top::TemplateString(*r),
    {
        match &self.db.ast.tops[self.id.0] {
            Top::TemplateString(t) => t,
            _ => vstd::pervasive::unreached(),
        }
    }
}

/// The position of the first of the first `n` serializers named `name`.
pub open spec fn serializer_position(variant: Variant, name: Seq<char>, n: nat) -> Option<int>
    decreases n,
{
    if n == 0 || n > variant.serializers@.len() {
        None
    } else {
        match serializer_position(variant, name, (n - 1) as nat) {
            Some(i) => Some(i),
            None => if variant.serializers@[n - 1].name@ == name {
                Some(n - 1)
            } else {
                None
            },
        }
    }
}

/// The position of the first of the first `n` fields of a serializer named
/// `name`.
pub open spec fn serializer_field_position(
    serializer: crate::ast::Serializer,
    name: Seq<char>,
    n: nat,
) -> Option<int>
    decreases n,
{
    if n == 0 || n > serializer.fields@.len() {
        None
    } else {
        match serializer_field_position(serializer, name, (n - 1) as nat) {
            Some(i) => Some(i),
            None => if serializer.fields@[n - 1].name@ == name {
                Some(n - 1)
            } else {
                None
            },
        }
    }
}

impl<'db> VariantWalker<'db> {
    /// The walker stands on a variant.
    pub open spec fn valid(&self) -> bool {
        self.id.0 < self.db.ast.tops@.len() && self.db.ast.tops@[self.id.0 as int] is Variant
    }

    /// The variant that the walker stands on.
    pub open spec fn variant(&self) -> Variant {
        self.db.ast.tops@[self.id.0 as int]->Variant_0
    }

    /// The name of the function.
    pub fn function_identifier(&self) -> (r: Identifier)
        requires
            self.valid(),
        ensures
            r matches Identifier::Local(s) && s@ == self.variant().function_name@,
    {
        Identifier::Local(self.ast_variant().function_name.clone())
    }

    /// The ID of the variant in the database.
    pub fn variant_id(&self) -> (r: VariantConfigId)
        ensures
            r == self.id,
    {
        self.id
    }

    /// The AST node.
    pub fn ast_variant(&self) -> (r: &'db Variant)
        requires
            self.valid(),
        ensures
            *r == self.variant(),
    {
        match &self.db.ast.tops[self.id.0] {
            Top::Variant(v) => v,
            _ => vstd::pervasive::unreached(),
        }
    }

    /// The decorations that the serializer named `name` records for the
    /// item as a whole.
    pub open spec fn serializer_attributes_spec(&self, name: Seq<char>) -> Option<
        ToStringAttributes,
    > {
        match serializer_position(self.variant(), name, self.variant().serializers@.len()) {
            Some(i) => {
                let table = self.db.types.variant_attributes@[self.id.0].serializers@;
                if i <= u32::MAX && table.contains_key(i as u32) {
                    table[i as u32].serilizer
                } else {
                    None
                }
            },
            None => None,
        }
    }

    /// Finds a serializer by name.
    pub fn find_serializer_attributes(&self, name: &str) -> (r: Option<&'db ToStringAttributes>)
        requires
            self.valid(),
            self.db.types.variant_attributes@.contains_key(self.id.0),
        ensures
            match self.serializer_attributes_spec(name@) {
                Some(a) => r == Some(&a),
                None => r is None,
            },
    {
        let variant = self.ast_variant();
        let mut i: usize = 0;
        while i < variant.serializers.len()
            invariant
                i <= variant.serializers.len(),
                *variant == self.variant(),
                self.db.types.variant_attributes@.contains_key(self.id.0),
                serializer_position(*variant, name@, i as nat) is None,
            decreases variant.serializers.len() - i,
        {
            if str_eq(variant.serializers[i].name.as_str(), name) {
                proof {
                    assert(serializer_position(*variant, name@, (i + 1) as nat) == Some(i as int));
                    lemma_serializer_position_stays(
                        *variant,
                        name@,
                        (i + 1) as nat,
                        variant.serializers@.len(),
                    );
                }
                if i > 0xffff_ffff {
                    return None;
                }
                let attributes = self.db.types.variant_attributes.get(&self.id.0);
                return match attributes {
                    Some(a) => match a.serializers.get(&(i as u32)) {
                        Some(f) => f.serilizer.as_ref(),
                        None => None,
                    },
                    None => None,
                };
            }
            i += 1;
        }
        None
    }

    /// The decorations that the serializer named `name` records for its
    /// field named `field_name`.
    pub open spec fn serializer_field_attributes_spec(
        &self,
        name: Seq<char>,
        field_name: Seq<char>,
    ) -> Option<ToStringAttributes> {
        match serializer_position(self.variant(), name, self.variant().serializers@.len()) {
            Some(i) => {
                let serializer = self.variant().serializers@[i];
                match serializer_field_position(serializer, field_name, serializer.fields@.len()) {
                    Some(f) => {
                        let table = self.db.types.variant_attributes@[self.id.0].serializers@;
                        if i <= u32::MAX && f <= u32::MAX && table.contains_key(i as u32)
                            && table[i as u32].field_serilizers@.contains_key(f as u32) {
                            Some(table[i as u32].field_serilizers@[f as u32])
                        } else {
                            None
                        }
                    },
                    None => None,
                }
            },
            None => None,
        }
    }

    /// Finds a serializer for a field by name.
    #[verifier::loop_isolation(false)]
    pub fn find_serializer_field_attributes(&self, name: &str, field_name: &str) -> (r: Option<
        &'db ToStringAttributes,
    >)
        requires
            self.valid(),
            self.db.types.variant_attributes@.contains_key(self.id.0),
        ensures
            match self.serializer_field_attributes_spec(name@, field_name@) {
                Some(a) => r == Some(&a),
                None => r is None,
            },
    {
        let variant = self.ast_variant();
        let mut i: usize = 0;
        while i < variant.serializers.len()
            invariant
                i <= variant.serializers.len(),
                *variant == self.variant(),
                self.db.types.variant_attributes@.contains_key(self.id.0),
                serializer_position(*variant, name@, i as nat) is None,
            decreases variant.serializers.len() - i,
        {
            if str_eq(variant.serializers[i].name.as_str(), name) {
                proof {
                    assert(serializer_position(*variant, name@, (i + 1) as nat) == Some(i as int));
                    lemma_serializer_position_stays(
                        *variant,
                        name@,
                        (i + 1) as nat,
                        variant.serializers@.len(),
                    );
                }
                let serializer = &variant.serializers[i];
                let mut f: usize = 0;
                while f < serializer.fields.len()
                    invariant
                        f <= serializer.fields.len(),
                        serializer_field_position(*serializer, field_name@, f as nat) is None,
                    decreases serializer.fields.len() - f,
                {
                    if str_eq(serializer.fields[f].name.as_str(), field_name) {
                        proof {
                            assert(serializer_field_position(
                                *serializer,
                                field_name@,
                                (f + 1) as nat,
                            ) == Some(f as int));
                            lemma_serializer_field_position_stays(
                                *serializer,
                                field_name@,
                                (f + 1) as nat,
                                serializer.fields@.len(),
                            );
                        }
                        if i > 0xffff_ffff || f > 0xffff_ffff {
                            return None;
                        }
                        let attributes = self.db.types.variant_attributes.get(&self.id.0);
                        return match attributes {
                            Some(a) => match a.serializers.get(&(i as u32)) {
                                Some(s) => s.field_serilizers.get(&(f as u32)),
                                None => None,
                            },
                            None => None,
                        };
                    }
                    f += 1;
                }
                return None;
            }
            i += 1;
        }
        None
    }

    /// The properties of the variant.
    pub fn properties(&self) -> (r: &'db VariantProperties)
        requires
            self.db.types.variant_properties@.contains_key(self.id.0),
        ensures
            *r == self.db.types.variant_properties@[self.id.0],
    {
        match self.db.types.variant_properties.get(&self.id.0) {
            Some(p) => p,
            None => vstd::pervasive::unreached(),
        }
    }

    /// The prompt representation.
    pub fn to_prompt(&self) -> (r: PromptAst<'db>)
        requires
            self.db.types.variant_properties@.contains_key(self.id.0),
            !self.db.types.variant_properties@[self.id.0].chats_lost(),
        ensures
            self.db.types.variant_properties@[self.id.0].assembles_to(r),
    {
        self.properties().to_prompt()
    }

    /// The name of the variant, as a plain identifier.
    pub fn identifier(&self) -> (r: Identifier)
        requires
            self.valid(),
        ensures
            r matches Identifier::Local(s) && s@ == self.variant().name@,
    {
        Identifier::Local(self.ast_variant().name.clone())
    }

    /// Where the variant stands.
    pub fn span(&self) -> (r: Span)
        requires
            self.valid(),
        ensures
            r == self.variant().span,
    {
        self.ast_variant().span
    }
}

/// A serializer found among the first ones is the serializer found among all.
pub proof fn lemma_serializer_position_stays(variant: Variant, name: Seq<char>, n: nat, m: nat)
    requires
        n <= m <= variant.serializers@.len(),
        serializer_position(variant, name, n) is Some,
    ensures
        serializer_position(variant, name, m) == serializer_position(variant, name, n),
    decreases m - n,
{
    if n < m {
        lemma_serializer_position_stays(variant, name, n, (m - 1) as nat);
    }
}

/// A field found among the first ones is the field found among all.
pub proof fn lemma_serializer_field_position_stays(
    serializer: crate::ast::Serializer,
    name: Seq<char>,
    n: nat,
    m: nat,
)
    requires
        n <= m <= serializer.fields@.len(),
        serializer_field_position(serializer, name, n) is Some,
    ensures
        serializer_field_position(serializer, name, m) == serializer_field_position(
            serializer,
            name,
            n,
        ),
    decreases m - n,
{
    if n < m {
        lemma_serializer_field_position_stays(serializer, name, n, (m - 1) as nat);
    }
}

impl<'db> ConfigurationWalker<'db> {
    /// The walker stands on a configuration block.
    pub open spec fn valid(&self) -> bool {
        self.id.0.0 < self.db.ast.tops@.len() && self.db.ast.tops@[self.id.0.0 as int] is Config
    }

    /// The AST node of the block.
    pub fn ast_node(&self) -> (r: &'db Configuration)
        requires
            self.valid(),
        ensures
            self.db.ast.tops@[self.id.0.0 as int] == Top::Config(*r),
    {
        match &self.db.ast.tops[self.id.0.0] {
            Top::Config(c) => c,
            _ => vstd::pervasive::unreached(),
        }
    }

    /// The retry policy that the block declares.
    pub fn retry_policy(&self) -> (r: &'db RetryPolicy)
        requires
            self.id.1@ == "retry_policy"@,
            self.db.types.retry_policies@.contains_key(self.id.0.0),
        ensures
            *r == self.db.types.retry_policies@[self.id.0.0],
    {
        match self.db.types.retry_policies.get(&self.id.0.0) {
            Some(p) => p,
            None => vstd::pervasive::unreached(),
        }
    }

    /// The printer that the block declares.
    pub fn printer(&self) -> (r: &'db PrinterType)
        requires
            self.id.1@ == "printer"@,
            self.db.types.printers@.contains_key(self.id.0.0),
        ensures
            *r == self.db.types.printers@[self.id.0.0],
    {
        match self.db.types.printers.get(&self.id.0.0) {
            Some(p) => p,
            None => vstd::pervasive::unreached(),
        }
    }

    /// The test case that the block declares.
    pub fn test_case(&self) -> (r: &'db TestCase)
        requires
            self.id.1@ == "test"@,
            self.db.types.test_cases@.contains_key(self.id.0.0),
        ensures
            *r == self.db.types.test_cases@[self.id.0.0],
    {
        match self.db.types.test_cases.get(&self.id.0.0) {
            Some(p) => p,
            None => vstd::pervasive::unreached(),
        }
    }

    /// The name of the block, as a plain identifier.
    pub fn identifier(&self) -> (r: Identifier)
        requires
            self.valid(),
        ensures
            r matches Identifier::Local(s) && s@ == self.db.ast.tops@[self.id.0.0 as int].name_spec(),
    {
        Identifier::Local(self.ast_node().block().name.clone())
    }

    /// Where the block stands.
    pub fn span(&self) -> (r: Span)
        requires
            self.valid(),
        ensures
            r == self.db.ast.tops@[self.id.0.0 as int].span_spec(),
    {
        self.ast_node().block().span
    }
}

impl ParserDatabase {
    /// The position of the declaration that `name` stands for.
    pub fn find_top_by_str(&self, name: &str) -> (r: Option<usize>)
        ensures
            match r {
                Some(i) => lookup(self.ast.tops@, name@, self.ast.tops@.len()) == Some(i as int)
                    && i < self.ast.tops@.len(),
                None => lookup(self.ast.tops@, name@, self.ast.tops@.len()) is None,
            },
    {
        let mut i: usize = 0;
        while i < self.ast.tops.len()
            invariant
                i <= self.ast.tops.len(),
                lookup(self.ast.tops@, name@, i as nat) is None,
            decreases self.ast.tops.len() - i,
        {
            let top = &self.ast.tops[i];
            let named = match top {
                Top::Variant(_) => false,
                _ => true,
            };
            if named && str_eq(top.name(), name) {
                proof {
                    assert(lookup(self.ast.tops@, name@, (i + 1) as nat) == Some(i as int));
                    lemma_lookup_stays(
                        self.ast.tops@,
                        name@,
                        (i + 1) as nat,
                        self.ast.tops@.len(),
                    );
                }
                return Some(i);
            }
            i += 1;
        }
        None
    }

    /// Find a type by name.
    pub fn find_type_by_str(&self, name: &str) -> (r: Option<TypeWalker<'_>>)
        ensures
            match named_type(self.ast.tops@, name@) {
                Some(t) => r matches Some(w) && w.is(self, t),
                None => r is None,
            },
    {
        match self.find_top_by_str(name) {
            Some(i) => match &self.ast.tops[i] {
                Top::Class(_) => Some(TypeWalker::Class(self.walk(ClassId(i)))),
                Top::Enum(_) => Some(TypeWalker::Enum(self.walk(EnumId(i)))),
                _ => None,
            },
            None => None,
        }
    }

    /// The class or enum that an identifier stands for: that of its name,
    /// where the identifier is a plain name.
    pub open spec fn identified_type(&self, idn: Identifier) -> Option<NamedType> {
        match idn {
            Identifier::Local(local) => named_type(self.ast.tops@, local@),
            _ => None,
        }
    }

    /// Find a type by name.
    pub fn find_type(&self, idn: &Identifier) -> (r: Option<TypeWalker<'_>>)
        ensures
            match self.identified_type(*idn) {
                Some(t) => r matches Some(w) && w.is(self, t),
                None => r is None,
            },
    {
        match idn {
            Identifier::Local(local) => self.find_type_by_str(local.as_str()),
            _ => None,
        }
    }

    /// Find an enum by name.
    pub fn find_enum(&self, idn: &Identifier) -> (r: Option<EnumWalker<'_>>)
        ensures
            match self.identified_type(*idn) {
                Some(NamedType::Enum(i)) => r matches Some(w) && *w.db == *self && w.id.0 == i
                    && w.valid(),
                _ => r is None,
            },
    {
        match self.find_type(idn) {
            Some(TypeWalker::Enum(e)) => Some(e),
            _ => None,
        }
    }

    /// Find a class by name.
    pub fn find_class(&self, idn: &Identifier) -> (r: Option<ClassWalker<'_>>)
        ensures
            match self.identified_type(*idn) {
                Some(NamedType::Class(i)) => r matches Some(w) && *w.db == *self && w.id.0 == i
                    && w.valid(),
                _ => r is None,
            },
    {
        match self.find_type(idn) {
            Some(TypeWalker::Class(c)) => Some(c),
            _ => None,
        }
    }

    /// The position of the retry policy or printer that `name` stands for:
    /// the first declaration of that name, where it is a configuration block
    /// with the keyword `keyword`.
    pub open spec fn configuration_named(&self, name: Seq<char>, keyword: Seq<char>) -> Option<
        int,
    > {
        match lookup(self.ast.tops@, name, self.ast.tops@.len()) {
            Some(i) => match self.ast.tops@[i] {
                Top::Config(c) => if c.kind_name() == keyword {
                    Some(i)
                } else {
                    None
                },
                _ => None,
            },
            None => None,
        }
    }

    /// Find a retry policy by name.
    pub fn find_retry_policy(&self, name: &str) -> (r: Option<ConfigurationWalker<'_>>)
        ensures
            match self.configuration_named(name@, "retry_policy"@) {
                Some(i) => r matches Some(w) && *w.db == *self && w.id.0.0 == i && w.id.1@
                    == "retry_policy"@ && w.valid(),
                None => r is None,
            },
    {
        proof {
            crate::ast::lemma_keywords_differ();
        }
        match self.find_top_by_str(name) {
            Some(i) => match &self.ast.tops[i] {
                Top::Config(Configuration::RetryPolicy(_)) => Some(
                    self.walk((ConfigurationId(i), "retry_policy")),
                ),
                _ => None,
            },
            None => None,
        }
    }

    /// Find a printer by name.
    pub fn find_printer(&self, name: &str) -> (r: Option<ConfigurationWalker<'_>>)
        ensures
            match self.configuration_named(name@, "printer"@) {
                Some(i) => r matches Some(w) && *w.db == *self && w.id.0.0 == i && w.id.1@
                    == "printer"@ && w.valid(),
                None => r is None,
            },
    {
        proof {
            crate::ast::lemma_keywords_differ();
        }
        match self.find_top_by_str(name) {
            Some(i) => match &self.ast.tops[i] {
                Top::Config(Configuration::Printer(_)) => Some(
                    self.walk((ConfigurationId(i), "printer")),
                ),
                _ => None,
            },
            None => None,
        }
    }

    /// Traverse a schema element by id.
    pub fn walk<I>(&self, id: I) -> (w: Walker<'_, I>)
        ensures
            *w.db == *self,
            w.id == id,
    {
        Walker { db: self, id }
    }

    /// The positions of the declarations of one kind, in order.
    fn positions_of(&self, kind: TopKind) -> (r: Vec<usize>)
        ensures
            r@.len() == positions(self.ast.tops@, kind, self.ast.tops@.len()).len(),
            forall|i: int|
                0 <= i < r@.len() ==> (#[trigger] r@[i]) == positions(
                    self.ast.tops@,
                    kind,
                    self.ast.tops@.len(),
                )[i] && r@[i] < self.ast.tops@.len() && self.ast.tops@[r@[i] as int].kind_spec()
                    == kind,
    {
        let mut out: Vec<usize> = Vec::new();
        let mut i: usize = 0;
        while i < self.ast.tops.len()
            invariant
                i <= self.ast.tops.len(),
                out@.len() == positions(self.ast.tops@, kind, i as nat).len(),
                forall|j: int|
                    0 <= j < out@.len() ==> (#[trigger] out@[j]) == positions(
                        self.ast.tops@,
                        kind,
                        i as nat,
                    )[j] && out@[j] < self.ast.tops@.len() && self.ast.tops@[out@[j] as int].kind_spec()
                        == kind,
            decreases self.ast.tops.len() - i,
        {
            if self.ast.tops[i].kind() == kind {
                out.push(i);
            }
            i += 1;
        }
        out
    }

    /// The names that can stand for a type in the schema, primitives included.
    pub fn valid_type_names(&self) -> (names: Vec<String>)
        ensures
            string_views(names@) == valid_names(self.ast.tops@),
    {
        let tops = &self.ast.tops;
        let classes = self.positions_of(TopKind::Class);
        let enums = self.positions_of(TopKind::Enum);
        let ghost class_at = positions(tops@, TopKind::Class, tops@.len());
        let ghost enum_at = positions(tops@, TopKind::Enum, tops@.len());
        let mut names: Vec<String> = Vec::new();
        let mut i: usize = 0;
        while i < classes.len()
            invariant
                i <= classes.len(),
                classes@.len() == class_at.len(),
                forall|j: int|
                    0 <= j < classes@.len() ==> (#[trigger] classes@[j]) == class_at[j]
                        && classes@[j] < tops@.len(),
                names@.len() == i,
                forall|j: int|
                    0 <= j < i ==> (#[trigger] names@[j])@ == tops@[class_at[j]].name_spec(),
            decreases classes.len() - i,
        {
            names.push(tops[classes[i]].name().to_string());
            i += 1;
        }
        let mut k: usize = 0;
        while k < enums.len()
            invariant
                k <= enums.len(),
                enums@.len() == enum_at.len(),
                forall|j: int|
                    0 <= j < enums@.len() ==> (#[trigger] enums@[j]) == enum_at[j] && enums@[j]
                        < tops@.len(),
                names@.len() == class_at.len() + k,
                forall|j: int|
                    0 <= j < class_at.len() ==> (#[trigger] names@[j])@
                        == tops@[class_at[j]].name_spec(),
                forall|j: int|
                    0 <= j < k ==> (#[trigger] names@[class_at.len() + j])@
                        == tops@[enum_at[j]].name_spec(),
            decreases enums.len() - k,
        {
            names.push(tops[enums[k]].name().to_string());
            k += 1;
        }
        names.push("string".to_string());
        names.push("int".to_string());
        names.push("float".to_string());
        names.push("bool".to_string());
        proof {
            let want = valid_names(tops@);
            let got = string_views(names@);
            assert(got.len() == want.len());
            assert forall|j: int| 0 <= j < got.len() implies got[j] == want[j] by {
                if j < class_at.len() {
                    assert(names@[j]@ == tops@[class_at[j]].name_spec());
                } else if j < class_at.len() + enum_at.len() {
                    let e = j - class_at.len();
                    assert(names@[class_at.len() + e]@ == tops@[enum_at[e]].name_spec());
                }
            }
            assert(got =~= want);
        }
        names
    }

    /// Walk all enums in the schema.
    pub fn walk_enums(&self) -> (r: Vec<EnumWalker<'_>>)
        ensures
            r@.len() == positions(self.ast.tops@, TopKind::Enum, self.ast.tops@.len()).len(),
            forall|i: int|
                0 <= i < r@.len() ==> (#[trigger] r@[i]).id.0 == positions(
                    self.ast.tops@,
                    TopKind::Enum,
                    self.ast.tops@.len(),
                )[i] && *r@[i].db == *self && r@[i].valid(),
    {
        let at = self.positions_of(TopKind::Enum);
        let mut out: Vec<EnumWalker<'_>> = Vec::new();
        let mut i: usize = 0;
        while i < at.len()
            invariant
                i <= at.len(),
                out@.len() == i,
                forall|j: int|
                    0 <= j < at@.len() ==> (#[trigger] at@[j]) < self.ast.tops@.len()
                        && self.ast.tops@[at@[j] as int].kind_spec() == TopKind::Enum,
                forall|j: int|
                    0 <= j < i ==> (#[trigger] out@[j]).id.0 == at@[j] && *out@[j].db == *self
                        && out@[j].valid(),
            decreases at.len() - i,
        {
            out.push(Walker { db: self, id: EnumId(at[i]) });
            i += 1;
        }
        out
    }

    /// Walk all classes in the schema.
    pub fn walk_classes(&self) -> (r: Vec<ClassWalker<'_>>)
        ensures
            r@.len() == positions(self.ast.tops@, TopKind::Class, self.ast.tops@.len()).len(),
            forall|i: int|
                0 <= i < r@.len() ==> (#[trigger] r@[i]).id.0 == positions(
                    self.ast.tops@,
                    TopKind::Class,
                    self.ast.tops@.len(),
                )[i] && *r@[i].db == *self && r@[i].valid(),
    {
        let at = self.positions_of(TopKind::Class);
        let mut out: Vec<ClassWalker<'_>> = Vec::new();
        let mut i: usize = 0;
        while i < at.len()
            invariant
                i <= at.len(),
                out@.len() == i,
                forall|j: int|
                    0 <= j < at@.len() ==> (#[trigger] at@[j]) < self.ast.tops@.len()
                        && self.ast.tops@[at@[j] as int].kind_spec() == TopKind::Class,
                forall|j: int|
                    0 <= j < i ==> (#[trigger] out@[j]).id.0 == at@[j] && *out@[j].db == *self
                        && out@[j].valid(),
            decreases at.len() - i,
        {
            out.push(Walker { db: self, id: ClassId(at[i]) });
            i += 1;
        }
        out
    }

    /// Walk all template strings in the schema.
    pub fn walk_templates(&self) -> (r: Vec<TemplateStringWalker<'_>>)
        ensures
            r@.len() == positions(
                self.ast.tops@,
                TopKind::TemplateString,
                self.ast.tops@.len(),
            ).len(),
            forall|i: int|
                0 <= i < r@.len() ==> (#[trigger] r@[i]).id.0 == positions(
                    self.ast.tops@,
                    TopKind::TemplateString,
                    self.ast.tops@.len(),
                )[i] && *r@[i].db == *self && r@[i].valid(),
    {
        let at = self.positions_of(TopKind::TemplateString);
        let mut out: Vec<TemplateStringWalker<'_>> = Vec::new();
        let mut i: usize = 0;
        while i < at.len()
            invariant
                i <= at.len(),
                out@.len() == i,
                forall|j: int|
                    0 <= j < at@.len() ==> (#[trigger] at@[j]) < self.ast.tops@.len()
                        && self.ast.tops@[at@[j] as int].kind_spec() == TopKind::TemplateString,
                forall|j: int|
                    0 <= j < i ==> (#[trigger] out@[j]).id.0 == at@[j] && *out@[j].db == *self
                        && out@[j].valid(),
            decreases at.len() - i,
        {
            out.push(Walker { db: self, id: TemplateStringId(at[i]) });
            i += 1;
        }
        out
    }

    /// Walk all variants in the schema.
    pub fn walk_variants(&self) -> (r: Vec<VariantWalker<'_>>)
        ensures
            r@.len() == positions(self.ast.tops@, TopKind::Variant, self.ast.tops@.len()).len(),
            forall|i: int|
                0 <= i < r@.len() ==> (#[trigger] r@[i]).id.0 == positions(
                    self.ast.tops@,
                    TopKind::Variant,
                    self.ast.tops@.len(),
                )[i] && *r@[i].db == *self && r@[i].valid(),
    {
        let at = self.positions_of(TopKind::Variant);
        let mut out: Vec<VariantWalker<'_>> = Vec::new();
        let mut i: usize = 0;
        while i < at.len()
            invariant
                i <= at.len(),
                out@.len() == i,
                forall|j: int|
                    0 <= j < at@.len() ==> (#[trigger] at@[j]) < self.ast.tops@.len()
                        && self.ast.tops@[at@[j] as int].kind_spec() == TopKind::Variant,
                forall|j: int|
                    0 <= j < i ==> (#[trigger] out@[j]).id.0 == at@[j] && *out@[j].db == *self
                        && out@[j].valid(),
            decreases at.len() - i,
        {
            out.push(Walker { db: self, id: VariantConfigId(at[i]) });
            i += 1;
        }
        out
    }

    /// Convert a field type to a type of the template engine.
    #[verifier::loop_isolation(false)]
    pub fn to_jinja_type(&self, ft: &FieldType) -> (r: JinjaType)
        ensures
            r@ == jinja_type(self.ast.tops@, *ft),
        decreases ft,
    {
        match ft {
            FieldType::Identifier(arity, idn) => {
                let t = match idn {
                    Identifier::ENV(_) => JinjaType::String,
                    Identifier::Ref(_) => match self.find_type(idn) {
                        None => JinjaType::Undefined,
                        Some(TypeWalker::Class(_)) => JinjaType::ClassRef(idn.name()),
                        Some(TypeWalker::Enum(_)) => JinjaType::String,
                    },
                    Identifier::Local(x) => match self.find_type(idn) {
                        None => JinjaType::Undefined,
                        Some(TypeWalker::Class(_)) => JinjaType::ClassRef(x.clone()),
                        Some(TypeWalker::Enum(_)) => JinjaType::String,
                    },
                    Identifier::Primitive(kind) => match kind {
                        TypeValue::String => JinjaType::String,
                        TypeValue::Int => JinjaType::Int,
                        TypeValue::Float => JinjaType::Float,
                        TypeValue::Bool => JinjaType::Bool,
                        TypeValue::Null => JinjaType::Absent,
                        TypeValue::Image => JinjaType::Image,
                    },
                    Identifier::String(_) => JinjaType::String,
                    Identifier::Invalid(_) => JinjaType::Unknown,
                };
                if arity.is_optional() {
                    absent_or(t)
                } else {
                    t
                }
            },
            FieldType::List(inner, dims) => {
                let mut t = self.to_jinja_type(inner);
                let ghost base = t@;
                let mut k: u32 = 0;
                while k < *dims
                    invariant
                        k <= *dims,
                        t@ == nested_jinja_list(base, k as nat),
                    decreases *dims - k,
                {
                    t = JinjaType::List(Box::new(t));
                    k += 1;
                }
                t
            },
            FieldType::Tuple(arity, c) => {
                let items = self.jinja_items(c, Ghost(*ft));
                let t = JinjaType::Tuple(items);
                if arity.is_optional() {
                    absent_or(t)
                } else {
                    t
                }
            },
            FieldType::Union(arity, options) => {
                let items = self.jinja_items(options, Ghost(*ft));
                let t = JinjaType::Union(items);
                if arity.is_optional() {
                    absent_or(t)
                } else {
                    t
                }
            },
            FieldType::Dictionary(key, value) => JinjaType::Dictionary(
                Box::new(self.to_jinja_type(key)),
                Box::new(self.to_jinja_type(value)),
            ),
        }
    }

    /// The template-engine types of the parts of `parent`.
    #[verifier::loop_isolation(false)]
    fn jinja_items(&self, items: &Vec<FieldType>, Ghost(parent): Ghost<FieldType>) -> (r: Vec<
        JinjaType,
    >)
        requires
            has_parts(parent, *items),
        ensures
            crate::semantic::jinja_views(r@, r@.len()) == jinja_types(
                self.ast.tops@,
                items@,
                items@.len(),
            ),
        decreases parent, 0nat,
    {
        let mut out: Vec<JinjaType> = Vec::new();
        let mut i: usize = 0;
        while i < items.len()
            invariant
                i <= items.len(),
                out@.len() == i,
                forall|j: int|
                    0 <= j < i ==> (#[trigger] out@[j])@ == jinja_type(self.ast.tops@, items@[j]),
            decreases items.len() - i,
        {
            let t = self.to_jinja_type(&items[i]);
            out.push(t);
            i += 1;
        }
        proof {
            lemma_jinja_views_are_views(out@);
            lemma_jinja_types(self.ast.tops@, items@, items@.len());
            assert(crate::semantic::jinja_views(out@, out@.len()) =~= jinja_types(
                self.ast.tops@,
                items@,
                items@.len(),
            ));
        }
        out
    }

    /// Convert a type of the schema to its canonical type.
    #[verifier::loop_isolation(false)]
    pub fn to_raw_field_type(&self, ft: &FieldType) -> (r: SemanticType)
        ensures
            r@ == raw_type(self.ast.tops@, *ft),
        decreases ft,
    {
        match ft {
            FieldType::Identifier(arity, identifier) => {
                let inner = match identifier {
                    Identifier::ENV(_) => SemanticType::Primitive(TypeValue::String),
                    Identifier::Ref(_) => match self.find_type(identifier) {
                        None => SemanticType::Primitive(TypeValue::Null),
                        Some(TypeWalker::Class(_)) => SemanticType::Class(identifier.name()),
                        Some(TypeWalker::Enum(_)) => SemanticType::Primitive(TypeValue::String),
                    },
                    Identifier::Local(x) => match self.find_type(identifier) {
                        None => SemanticType::Primitive(TypeValue::Null),
                        Some(TypeWalker::Class(_c)) => SemanticType::Class(x.clone()),
                        Some(TypeWalker::Enum(_e)) => SemanticType::Enum(x.clone()),
                    },
                    Identifier::Primitive(kind) => SemanticType::Primitive(*kind),
                    Identifier::String(_) => SemanticType::Primitive(TypeValue::String),
                    Identifier::Invalid(_) => SemanticType::Primitive(TypeValue::Null),
                };
                assert(inner@ == crate::parser_database::raw_identifier_type(
                    self.ast.tops@,
                    *identifier,
                ));
                if arity.is_optional() {
                    SemanticType::Optional(Box::new(inner))
                } else {
                    inner
                }
            },
            FieldType::List(inner, dims) => {
                let mut t = self.to_raw_field_type(inner);
                let ghost base = t@;
                let mut k: u32 = 0;
                while k < *dims
                    invariant
                        k <= *dims,
                        t@ == nested_list(base, k as nat),
                    decreases *dims - k,
                {
                    t = SemanticType::List(Box::new(t));
                    k += 1;
                }
                t
            },
            FieldType::Tuple(arity, inner) => {
                let t = SemanticType::Tuple(self.raw_items(inner, Ghost(*ft)));
                assert(t@ == crate::semantic::SemanticTypeView::Tuple(
                    raw_types(self.ast.tops@, inner@, inner@.len()),
                ));
                if arity.is_optional() {
                    SemanticType::Optional(Box::new(t))
                } else {
                    t
                }
            },
            FieldType::Union(arity, inner) => {
                let t = SemanticType::Union(self.raw_items(inner, Ghost(*ft)));
                assert(t@ == crate::semantic::SemanticTypeView::Union(
                    raw_types(self.ast.tops@, inner@, inner@.len()),
                ));
                if arity.is_optional() {
                    SemanticType::Optional(Box::new(t))
                } else {
                    t
                }
            },
            FieldType::Dictionary(key, value) => SemanticType::Dictionary(
                Box::new(self.to_raw_field_type(key)),
                Box::new(self.to_raw_field_type(value)),
            ),
        }
    }

    /// The canonical types of the parts of `parent`.
    #[verifier::loop_isolation(false)]
    fn raw_items(&self, items: &Vec<FieldType>, Ghost(parent): Ghost<FieldType>) -> (r: Vec<
        SemanticType,
    >)
        requires
            has_parts(parent, *items),
        ensures
            crate::semantic::semantic_views(r@, r@.len()) == raw_types(
                self.ast.tops@,
                items@,
                items@.len(),
            ),
        decreases parent, 0nat,
    {
        let mut out: Vec<SemanticType> = Vec::new();
        let mut i: usize = 0;
        while i < items.len()
            invariant
                i <= items.len(),
                out@.len() == i,
                forall|j: int|
                    0 <= j < i ==> (#[trigger] out@[j])@ == raw_type(self.ast.tops@, items@[j]),
            decreases items.len() - i,
        {
            let t = self.to_raw_field_type(&items[i]);
            out.push(t);
            i += 1;
        }
        proof {
            lemma_semantic_views_are_views(out@);
            lemma_raw_types(self.ast.tops@, items@, items@.len());
            assert(crate::semantic::semantic_views(out@, out@.len()) =~= raw_types(
                self.ast.tops@,
                items@,
                items@.len(),
            ));
        }
        out
    }
}

/// `items` are the parts of the tuple or union `parent`.
pub open spec fn has_parts(parent: FieldType, items: Vec<FieldType>) -> bool {
    match parent {
        FieldType::Tuple(_, v) => v == items,
        FieldType::Union(_, v) => v == items,
        _ => false,
    }
}

/// A declaration found among the first ones is the declaration found among all.
pub proof fn lemma_lookup_stays(tops: Seq<Top>, name: Seq<char>, n: nat, m: nat)
    requires
        n <= m <= tops.len(),
        lookup(tops, name, n) is Some,
    ensures
        lookup(tops, name, m) == lookup(tops, name, n),
    decreases m - n,
{
    if n < m {
        lemma_lookup_stays(tops, name, n, (m - 1) as nat);
    }
}

} // verus!
