//! Read-only navigation of the typed model.

use vstd::prelude::*;
use crate::ast::Expression;
use crate::diagnostics::Span;
use crate::repr::{IntermediateRepr, Node};
use crate::resolve::{Environment, ResolveError, ResolveErrorView};
use crate::semantic::SemanticType;
use crate::text::{concat5, str_eq, string_views};

verus! {

pub type Enum<'a> = Node<'a, crate::repr::Enum<'a>>;

pub type EnumValue<'a> = Node<'a, crate::repr::EnumValue>;

pub type Class<'a> = Node<'a, crate::repr::Class<'a>>;

pub type Field<'a> = Node<'a, crate::repr::Field<'a>>;

pub type TemplateString<'a> = Node<'a, crate::repr::TemplateString<'a>>;

/// A handle on one item of a model.
#[derive(Debug)]
pub struct Walker<'db, I> {
    pub db: &'db IntermediateRepr<'db>,
    pub item: I,
}

pub type EnumWalker<'a> = Walker<'a, &'a Enum<'a>>;

pub type EnumValueWalker<'a> = Walker<'a, &'a EnumValue<'a>>;

pub type ClassWalker<'a> = Walker<'a, &'a Class<'a>>;

pub type TemplateStringWalker<'a> = Walker<'a, &'a TemplateString<'a>>;

pub type ClassFieldWalker<'a> = Walker<'a, &'a Field<'a>>;

/// A name was looked up and is not declared.
#[derive(Debug)]
pub struct NotFoundError {
    /// What was looked for: `enum`, `class` or `template string`.
    pub kind: String,
    /// The name that was looked up.
    pub needle: String,
    /// Every declared name of that kind, in declaration order.
    pub candidates: Vec<String>,
}

impl NotFoundError {
    /// The wording of the error.
    pub fn message(&self) -> (m: String)
        ensures
            m@ == "Could not find "@ + self.kind@ + " `"@ + self.needle@ + "`"@,
    {
        let m = concat5("Could not find ", self.kind.as_str(), " `", self.needle.as_str(), "`");
        m
    }
}

/// The text of a decoration, where the item has it.
pub open spec fn string_attribute(e: Option<&Expression>, env: Map<Seq<char>, Seq<char>>) -> Result<
    Option<Seq<char>>,
    ResolveErrorView,
> {
    match e {
        None => Ok(None),
        Some(x) => match x.as_string_spec(env) {
            Ok(s) => Ok(Some(s)),
            Err(err) => Err(err),
        },
    }
}

/// `r` is the outcome `expected` of reading a decoration as text.
pub open spec fn is_attribute_text(
    r: Result<Option<String>, ResolveError>,
    expected: Result<Option<Seq<char>>, ResolveErrorView>,
) -> bool {
    match r {
        Ok(Some(s)) => expected == Ok::<Option<Seq<char>>, ResolveErrorView>(Some(s@)),
        Ok(None) => expected == Ok::<Option<Seq<char>>, ResolveErrorView>(None),
        Err(e) => expected == Err::<Option<Seq<char>>, ResolveErrorView>(e@),
    }
}

/// Reads a decoration as text, afresh.
fn read_attribute(e: Option<&Expression>, env_values: &Environment) -> (r: Result<
    Option<String>,
    ResolveError,
>)
    ensures
        is_attribute_text(r, string_attribute(e, env_values@)),
{
    match e {
        None => Ok(None),
        Some(x) => match x.as_string_value(env_values) {
            Ok(s) => Ok(Some(s)),
            Err(err) => Err(err),
        },
    }
}

/// The position of the first of the first `n` names that is `name`.
pub open spec fn first_named(names: Seq<Seq<char>>, name: Seq<char>, n: nat) -> Option<int>
    decreases n,
{
    if n == 0 || n > names.len() {
        None
    } else {
        match first_named(names, name, (n - 1) as nat) {
            Some(i) => Some(i),
            None => if names[n - 1] == name {
                Some(n - 1)
            } else {
                None
            },
        }
    }
}

/// A name found among the first ones is the name found among all, and a
/// name is found exactly where it is among the names.
pub proof fn lemma_first_named(names: Seq<Seq<char>>, name: Seq<char>, n: nat)
    requires
        n <= names.len(),
    ensures
        match first_named(names, name, n) {
            Some(i) => 0 <= i < n && names[i] == name && first_named(names, name, names.len())
                == Some(i),
            None => forall|j: int| 0 <= j < n ==> names[j] != name,
        },
    decreases names.len() - n,
{
    lemma_first_named_prefix(names, name, n);
    if n < names.len() {
        lemma_first_named(names, name, (n + 1) as nat);
    }
}

proof fn lemma_first_named_prefix(names: Seq<Seq<char>>, name: Seq<char>, n: nat)
    requires
        n <= names.len(),
    ensures
        match first_named(names, name, n) {
            Some(i) => 0 <= i < n && names[i] == name,
            None => forall|j: int| 0 <= j < n ==> names[j] != name,
        },
    decreases n,
{
    if n > 0 {
        lemma_first_named_prefix(names, name, (n - 1) as nat);
    }
}

/// The names of the values of an enum, in declaration order.
pub open spec fn value_names(e: Enum<'_>) -> Seq<Seq<char>> {
    Seq::new(e.elem.values@.len(), |i: int| e.elem.values@[i].elem.0@)
}

/// The names of the fields of a class, in declaration order.
pub open spec fn field_names(c: Class<'_>) -> Seq<Seq<char>> {
    Seq::new(c.elem.static_fields@.len(), |i: int| c.elem.static_fields@[i].elem.name@)
}

impl<'a> Walker<'a, &'a Enum<'a>> {
    pub fn name(&self) -> (r: &'a str)
        ensures
            r@ == self.item.elem.name@,
    {
        self.elem().name.as_str()
    }

    /// The name of the enum at the serialization boundary, where it has one.
    pub fn alias(&self, env_values: &Environment) -> (r: Result<Option<String>, ResolveError>)
        ensures
            is_attribute_text(r, string_attribute(self.item.attributes.alias, env_values@)),
    {
        read_attribute(self.item.attributes.get("alias"), env_values)
    }

    /// The values of the enum, in declaration order.
    pub fn walk_values(&self) -> (r: Vec<Walker<'a, &'a EnumValue<'a>>>)
        ensures
            r@.len() == self.item.elem.values@.len(),
            forall|i: int|
                0 <= i < r@.len() ==> *(#[trigger] r@[i]).item == self.item.elem.values@[i]
                    && r@[i].db == self.db,
    {
        let mut out: Vec<Walker<'a, &'a EnumValue<'a>>> = Vec::new();
        let mut i: usize = 0;
        while i < self.item.elem.values.len()
            invariant
                i <= self.item.elem.values.len(),
                out@.len() == i,
                forall|j: int|
                    0 <= j < i ==> *(#[trigger] out@[j]).item == self.item.elem.values@[j]
                        && out@[j].db == self.db,
            decreases self.item.elem.values.len() - i,
        {
            out.push(Walker { db: self.db, item: &self.item.elem.values[i] });
            i += 1;
        }
        out
    }

    /// The first value named `name`.
    pub fn find_value(&self, name: &str) -> (r: Option<Walker<'a, &'a EnumValue<'a>>>)
        ensures
            match first_named(value_names(*self.item), name@, value_names(*self.item).len()) {
                Some(i) => r matches Some(w) && *w.item == self.item.elem.values@[i] && w.db
                    == self.db,
                None => r is None,
            },
    {
        let ghost names = value_names(*self.item);
        let mut i: usize = 0;
        while i < self.item.elem.values.len()
            invariant
                i <= self.item.elem.values.len(),
                names == value_names(*self.item),
                first_named(names, name@, i as nat) is None,
            decreases self.item.elem.values.len() - i,
        {
            proof {
                assert(names[i as int] == self.item.elem.values@[i as int].elem.0@);
            }
            if str_eq(self.item.elem.values[i].elem.0.as_str(), name) {
                proof {
                    lemma_first_named(names, name@, (i + 1) as nat);
                }
                return Some(Walker { db: self.db, item: &self.item.elem.values[i] });
            }
            i += 1;
        }
        None
    }

    pub fn elem(&self) -> (r: &'a crate::repr::Enum<'a>)
        ensures
            *r == self.item.elem,
    {
        &self.item.elem
    }

    pub fn span(&self) -> (r: Option<Span>)
        ensures
            r == self.item.attributes.span,
    {
        self.item.attributes.span
    }
}

/// Whether a value is skipped: where it is decorated with `skip`, by the
/// argument read as a boolean, and without an argument always.
pub open spec fn skip_of(skip: Option<Option<&Expression>>, env: Map<Seq<char>, Seq<char>>) -> Result<
    bool,
    ResolveErrorView,
> {
    match skip {
        None => Ok(false),
        Some(None) => Ok(true),
        Some(Some(e)) => e.as_bool_spec(env),
    }
}

impl<'a> Walker<'a, &'a EnumValue<'a>> {
    /// Whether the value is left out when serializing.
    pub fn skip(&self, env_values: &Environment) -> (r: Result<bool, ResolveError>)
        ensures
            match r {
                Ok(b) => skip_of(self.item.attributes.skip, env_values@) == Ok::<
                    bool,
                    ResolveErrorView,
                >(b),
                Err(e) => skip_of(self.item.attributes.skip, env_values@) == Err::<
                    bool,
                    ResolveErrorView,
                >(e@),
            },
    {
        match self.item.attributes.skip {
            None => Ok(false),
            Some(None) => Ok(true),
            Some(Some(e)) => e.as_bool(env_values),
        }
    }

    pub fn name(&self) -> (r: &'a str)
        ensures
            r@ == self.item.elem.0@,
    {
        self.item.elem.0.as_str()
    }

    /// The name of the value at the serialization boundary, where it has one.
    pub fn alias(&self, env_values: &Environment) -> (r: Result<Option<String>, ResolveError>)
        ensures
            is_attribute_text(r, string_attribute(self.item.attributes.alias, env_values@)),
    {
        read_attribute(self.item.attributes.get("alias"), env_values)
    }

    /// The documentation of the value, where it has one.
    pub fn description(&self, env_values: &Environment) -> (r: Result<Option<String>, ResolveError>)
        ensures
            is_attribute_text(r, string_attribute(self.item.attributes.description, env_values@)),
    {
        proof {
            reveal_strlit("alias");
            reveal_strlit("description");
            assert("alias"@.len() != "description"@.len());
        }
        read_attribute(self.item.attributes.get("description"), env_values)
    }
}

impl<'a> Walker<'a, &'a Class<'a>> {
    pub fn name(&self) -> (r: &'a str)
        ensures
            r@ == self.item.elem.name@,
    {
        self.elem().name.as_str()
    }

    /// The name of the class at the serialization boundary, where it has one.
    pub fn alias(&self, env_values: &Environment) -> (r: Result<Option<String>, ResolveError>)
        ensures
            is_attribute_text(r, string_attribute(self.item.attributes.alias, env_values@)),
    {
        read_attribute(self.item.attributes.get("alias"), env_values)
    }

    /// The fields of the class, in declaration order.
    pub fn walk_fields(&self) -> (r: Vec<Walker<'a, &'a Field<'a>>>)
        ensures
            r@.len() == self.item.elem.static_fields@.len(),
            forall|i: int|
                0 <= i < r@.len() ==> *(#[trigger] r@[i]).item == self.item.elem.static_fields@[i]
                    && r@[i].db == self.db,
    {
        let mut out: Vec<Walker<'a, &'a Field<'a>>> = Vec::new();
        let mut i: usize = 0;
        while i < self.item.elem.static_fields.len()
            invariant
                i <= self.item.elem.static_fields.len(),
                out@.len() == i,
                forall|j: int|
                    0 <= j < i ==> *(#[trigger] out@[j]).item == self.item.elem.static_fields@[j]
                        && out@[j].db == self.db,
            decreases self.item.elem.static_fields.len() - i,
        {
            out.push(Walker { db: self.db, item: &self.item.elem.static_fields[i] });
            i += 1;
        }
        out
    }

    /// The first field named `name`.
    pub fn find_field(&self, name: &str) -> (r: Option<Walker<'a, &'a Field<'a>>>)
        ensures
            match first_named(field_names(*self.item), name@, field_names(*self.item).len()) {
                Some(i) => r matches Some(w) && *w.item == self.item.elem.static_fields@[i]
                    && w.db == self.db,
                None => r is None,
            },
    {
        let ghost names = field_names(*self.item);
        let mut i: usize = 0;
        while i < self.item.elem.static_fields.len()
            invariant
                i <= self.item.elem.static_fields.len(),
                names == field_names(*self.item),
                first_named(names, name@, i as nat) is None,
            decreases self.item.elem.static_fields.len() - i,
        {
            proof {
                assert(names[i as int] == self.item.elem.static_fields@[i as int].elem.name@);
            }
            if str_eq(self.item.elem.static_fields[i].elem.name.as_str(), name) {
                proof {
                    lemma_first_named(names, name@, (i + 1) as nat);
                }
                return Some(Walker { db: self.db, item: &self.item.elem.static_fields[i] });
            }
            i += 1;
        }
        None
    }

    pub fn elem(&self) -> (r: &'a crate::repr::Class<'a>)
        ensures
            *r == self.item.elem,
    {
        &self.item.elem
    }

    pub fn span(&self) -> (r: Option<Span>)
        ensures
            r == self.item.attributes.span,
    {
        self.item.attributes.span
    }
}

impl<'a> Walker<'a, &'a TemplateString<'a>> {
    pub fn elem(&self) -> (r: &'a crate::repr::TemplateString<'a>)
        ensures
            *r == self.item.elem,
    {
        &self.item.elem
    }

    pub fn name(&self) -> (r: &'a str)
        ensures
            r@ == self.item.elem.name@,
    {
        self.elem().name.as_str()
    }

    pub fn inputs(&self) -> (r: &'a Vec<crate::repr::Field<'a>>)
        ensures
            *r == self.item.elem.params,
    {
        &self.item.elem.params
    }

    pub fn template(&self) -> (r: &'a str)
        ensures
            r@ == self.item.elem.content@,
    {
        self.elem().content.as_str()
    }

    pub fn span(&self) -> (r: Option<Span>)
        ensures
            r == self.item.attributes.span,
    {
        self.item.attributes.span
    }
}

impl<'a> Walker<'a, &'a Field<'a>> {
    pub fn name(&self) -> (r: &'a str)
        ensures
            r@ == self.item.elem.name@,
    {
        self.elem().name.as_str()
    }

    /// The resolved type of the field.
    pub fn field_type(&self) -> (r: &'a SemanticType)
        ensures
            *r == self.item.elem.field_type.elem,
    {
        &self.elem().field_type.elem
    }

    pub fn elem(&self) -> (r: &'a crate::repr::Field<'a>)
        ensures
            *r == self.item.elem,
    {
        &self.item.elem
    }

    /// The name of the field at the serialization boundary, where it has one.
    pub fn alias(&self, env_values: &Environment) -> (r: Result<Option<String>, ResolveError>)
        ensures
            is_attribute_text(r, string_attribute(self.item.attributes.alias, env_values@)),
    {
        read_attribute(self.item.attributes.get("alias"), env_values)
    }

    /// The documentation of the field, where it has one.
    pub fn description(&self, env_values: &Environment) -> (r: Result<Option<String>, ResolveError>)
        ensures
            is_attribute_text(r, string_attribute(self.item.attributes.description, env_values@)),
    {
        proof {
            reveal_strlit("alias");
            reveal_strlit("description");
            assert("alias"@.len() != "description"@.len());
        }
        read_attribute(self.item.attributes.get("description"), env_values)
    }

    pub fn span(&self) -> (r: Option<Span>)
        ensures
            r == self.item.attributes.span,
    {
        self.item.attributes.span
    }
}

/// The error for a name of the kind `kind` that is not among `names`.
pub open spec fn is_not_found(
    e: NotFoundError,
    kind: Seq<char>,
    needle: Seq<char>,
    names: Seq<Seq<char>>,
) -> bool {
    e.kind@ == kind && e.needle@ == needle && string_views(e.candidates@) == names
}

/// Lookups by name in a model. A lookup gives the first item declared under
/// the name; where there is none, it fails with every declared name of the
/// kind.
pub trait IRHelper {
    /// The names of the enums, in declaration order.
    spec fn enum_names(&self) -> Seq<Seq<char>>;

    /// The names of the classes, in declaration order.
    spec fn class_names(&self) -> Seq<Seq<char>>;

    /// The names of the template strings, in declaration order.
    spec fn template_string_names(&self) -> Seq<Seq<char>>;

    fn find_enum(&self, enum_name: &str) -> (r: Result<EnumWalker<'_>, NotFoundError>)
        ensures
            match r {
                Ok(w) => self.enum_names().contains(enum_name@) && w.item.elem.name@ == enum_name@,
                Err(e) => !self.enum_names().contains(enum_name@) && is_not_found(
                    e,
                    "enum"@,
                    enum_name@,
                    self.enum_names(),
                ),
            },
    ;

    fn find_class(&self, class_name: &str) -> (r: Result<ClassWalker<'_>, NotFoundError>)
        ensures
            match r {
                Ok(w) => self.class_names().contains(class_name@) && w.item.elem.name@
                    == class_name@,
                Err(e) => !self.class_names().contains(class_name@) && is_not_found(
                    e,
                    "class"@,
                    class_name@,
                    self.class_names(),
                ),
            },
    ;

    fn find_template_string(&self, template_string_name: &str) -> (r: Result<
        TemplateStringWalker<'_>,
        NotFoundError,
    >)
        ensures
            match r {
                Ok(w) => self.template_string_names().contains(template_string_name@)
                    && w.item.elem.name@ == template_string_name@,
                Err(e) => !self.template_string_names().contains(template_string_name@)
                    && is_not_found(
                    e,
                    "template string"@,
                    template_string_name@,
                    self.template_string_names(),
                ),
            },
    ;
}

impl<'db> IntermediateRepr<'db> {
    /// Walk all enums of the model.
    pub fn walk_enums(&self) -> (r: Vec<EnumWalker<'_>>)
        ensures
            r@.len() == self.enums@.len(),
            forall|i: int| 0 <= i < r@.len() ==> *(#[trigger] r@[i]).item == self.enums@[i] && *r@[i].db == *self,
    {
        let mut out: Vec<EnumWalker<'_>> = Vec::new();
        let mut i: usize = 0;
        while i < self.enums.len()
            invariant
                i <= self.enums.len(),
                out@.len() == i,
                forall|j: int| 0 <= j < i ==> *(#[trigger] out@[j]).item == self.enums@[j] && *out@[j].db == *self,
            decreases self.enums.len() - i,
        {
            out.push(Walker { db: self, item: &self.enums[i] });
            i += 1;
        }
        out
    }

    /// Walk all classes of the model.
    pub fn walk_classes(&self) -> (r: Vec<ClassWalker<'_>>)
        ensures
            r@.len() == self.classes@.len(),
            forall|i: int| 0 <= i < r@.len() ==> *(#[trigger] r@[i]).item == self.classes@[i] && *r@[i].db == *self,
    {
        let mut out: Vec<ClassWalker<'_>> = Vec::new();
        let mut i: usize = 0;
        while i < self.classes.len()
            invariant
                i <= self.classes.len(),
                out@.len() == i,
                forall|j: int| 0 <= j < i ==> *(#[trigger] out@[j]).item == self.classes@[j] && *out@[j].db == *self,
            decreases self.classes.len() - i,
        {
            out.push(Walker { db: self, item: &self.classes[i] });
            i += 1;
        }
        out
    }

    /// Walk all template strings of the model.
    pub fn walk_template_strings(&self) -> (r: Vec<TemplateStringWalker<'_>>)
        ensures
            r@.len() == self.template_strings@.len(),
            forall|i: int|
                0 <= i < r@.len() ==> *(#[trigger] r@[i]).item == self.template_strings@[i] && *r@[i].db == *self,
    {
        let mut out: Vec<TemplateStringWalker<'_>> = Vec::new();
        let mut i: usize = 0;
        while i < self.template_strings.len()
            invariant
                i <= self.template_strings.len(),
                out@.len() == i,
                forall|j: int|
                    0 <= j < i ==> *(#[trigger] out@[j]).item == self.template_strings@[j] && *out@[j].db == *self,
            decreases self.template_strings.len() - i,
        {
            out.push(Walker { db: self, item: &self.template_strings[i] });
            i += 1;
        }
        out
    }
}

impl<'db> IRHelper for IntermediateRepr<'db> {
    open spec fn enum_names(&self) -> Seq<Seq<char>> {
        Seq::new(self.enums@.len(), |i: int| self.enums@[i].elem.name@)
    }

    open spec fn class_names(&self) -> Seq<Seq<char>> {
        Seq::new(self.classes@.len(), |i: int| self.classes@[i].elem.name@)
    }

    open spec fn template_string_names(&self) -> Seq<Seq<char>> {
        Seq::new(self.template_strings@.len(), |i: int| self.template_strings@[i].elem.name@)
    }

    fn find_enum(&self, enum_name: &str) -> (r: Result<EnumWalker<'_>, NotFoundError>)
        ensures
            r matches Ok(w) ==> first_named(
                self.enum_names(),
                enum_name@,
                self.enum_names().len(),
            ) matches Some(i) && *w.item == self.enums@[i],
    {
        let ghost names = self.enum_names();
        let mut candidates: Vec<String> = Vec::new();
        let mut i: usize = 0;
        while i < self.enums.len()
            invariant
                i <= self.enums.len(),
                names == self.enum_names(),
                first_named(names, enum_name@, i as nat) is None,
                candidates@.len() == i,
                forall|j: int| 0 <= j < i ==> (#[trigger] candidates@[j])@ == names[j],
            decreases self.enums.len() - i,
        {
            proof {
                assert(names[i as int] == self.enums@[i as int].elem.name@);
            }
            if str_eq(self.enums[i].elem.name.as_str(), enum_name) {
                proof {
                    lemma_first_named(names, enum_name@, (i + 1) as nat);
                    assert(names.contains(enum_name@));
                }
                return Ok(Walker { db: self, item: &self.enums[i] });
            }
            candidates.push(self.enums[i].elem.name.clone());
            i += 1;
        }
        proof {
            lemma_first_named(names, enum_name@, names.len());
            assert(string_views(candidates@) =~= names);
            assert(!names.contains(enum_name@));
        }
        Err(
            NotFoundError {
                kind: "enum".to_string(),
                needle: enum_name.to_string(),
                candidates,
            },
        )
    }

    fn find_class(&self, class_name: &str) -> (r: Result<ClassWalker<'_>, NotFoundError>)
        ensures
            r matches Ok(w) ==> first_named(
                self.class_names(),
                class_name@,
                self.class_names().len(),
            ) matches Some(i) && *w.item == self.classes@[i],
    {
        let ghost names = self.class_names();
        let mut candidates: Vec<String> = Vec::new();
        let mut i: usize = 0;
        while i < self.classes.len()
            invariant
                i <= self.classes.len(),
                names == self.class_names(),
                first_named(names, class_name@, i as nat) is None,
                candidates@.len() == i,
                forall|j: int| 0 <= j < i ==> (#[trigger] candidates@[j])@ == names[j],
            decreases self.classes.len() - i,
        {
            proof {
                assert(names[i as int] == self.classes@[i as int].elem.name@);
            }
            if str_eq(self.classes[i].elem.name.as_str(), class_name) {
                proof {
                    lemma_first_named(names, class_name@, (i + 1) as nat);
                    assert(names.contains(class_name@));
                }
                return Ok(Walker { db: self, item: &self.classes[i] });
            }
            candidates.push(self.classes[i].elem.name.clone());
            i += 1;
        }
        proof {
            lemma_first_named(names, class_name@, names.len());
            assert(string_views(candidates@) =~= names);
            assert(!names.contains(class_name@));
        }
        Err(
            NotFoundError {
                kind: "class".to_string(),
                needle: class_name.to_string(),
                candidates,
            },
        )
    }

    fn find_template_string(&self, template_string_name: &str) -> (r: Result<
        TemplateStringWalker<'_>,
        NotFoundError,
    >)
        ensures
            r matches Ok(w) ==> first_named(
                self.template_string_names(),
                template_string_name@,
                self.template_string_names().len(),
            ) matches Some(i) && *w.item == self.template_strings@[i],
    {
        let ghost names = self.template_string_names();
        let mut candidates: Vec<String> = Vec::new();
        let mut i: usize = 0;
        while i < self.template_strings.len()
            invariant
                i <= self.template_strings.len(),
                names == self.template_string_names(),
                first_named(names, template_string_name@, i as nat) is None,
                candidates@.len() == i,
                forall|j: int| 0 <= j < i ==> (#[trigger] candidates@[j])@ == names[j],
            decreases self.template_strings.len() - i,
        {
            proof {
                assert(names[i as int] == self.template_strings@[i as int].elem.name@);
            }
            if str_eq(self.template_strings[i].elem.name.as_str(), template_string_name) {
                proof {
                    lemma_first_named(names, template_string_name@, (i + 1) as nat);
                    assert(names.contains(template_string_name@));
                }
                return Ok(Walker { db: self, item: &self.template_strings[i] });
            }
            candidates.push(self.template_strings[i].elem.name.clone());
            i += 1;
        }
        proof {
            lemma_first_named(names, template_string_name@, names.len());
            assert(string_views(candidates@) =~= names);
            assert(!names.contains(template_string_name@));
        }
        Err(
            NotFoundError {
                kind: "template string".to_string(),
                needle: template_string_name.to_string(),
                candidates,
            },
        )
    }
}

} // verus!
