//! What the prompt formatter and the result parser need of a schema: the
//! target type and the descriptions of the declared enums and classes.

use vstd::prelude::*;
use crate::ast::Attribute;
use crate::diagnostics::any_error;
use crate::parser_database::{named_type, positions, raw_type, NamedType};
use crate::pretty_print::entries_shown;
use crate::repr::attribute_argument;
use crate::schema::ValidatedSchema;
use crate::semantic::{SemanticType, SemanticTypeView};
use crate::source_file::SourceFile;
use crate::top::{Top, TopKind};
use crate::walkers::TypeWalker;

verus! {

/// An enum as the prompt formatter sees it: its name, and each value with
/// its description.
#[derive(Debug)]
pub struct EnumDescription {
    pub name: String,
    pub values: Vec<(String, Option<String>)>,
}

/// A class as the prompt formatter sees it: its name, and each field with
/// its resolved type and its description.
#[derive(Debug)]
pub struct ClassDescription {
    pub name: String,
    pub fields: Vec<(String, SemanticType, Option<String>)>,
}

/// What the prompt formatter builds the description of the output from.
#[derive(Debug)]
pub struct OutputFormatContent {
    pub enums: Vec<EnumDescription>,
    pub classes: Vec<ClassDescription>,
    pub target: SemanticType,
}

/// The context around a schema.
#[derive(Debug)]
pub struct BamlContext {
    /// What the prompt for the language model is formatted from.
    pub format: OutputFormatContent,
    /// The target of the output: a class or an enum.
    pub target: SemanticType,
    /// The validated schema.
    pub validated_schema: ValidatedSchema,
}

/// Why no context can be had for a schema.
#[derive(Debug)]
pub enum ContextError {
    /// The schema has errors. The report shows them all.
    InvalidSchema(String),
    /// The schema declares no class and no enum under the name asked for.
    UnknownTarget(String),
    /// The schema declares no class and no enum.
    NoTarget,
}

/// The description among the decorations: the text of the first argument
/// of the first `description`, where it is a string.
pub open spec fn description_of(attrs: Seq<Attribute>) -> Option<Seq<char>> {
    match attribute_argument(attrs, "description"@) {
        Some(e) => e.string_text(),
        None => None,
    }
}

/// `got` is the text `want`, where there is one.
pub open spec fn is_text(got: Option<String>, want: Option<Seq<char>>) -> bool {
    match got {
        Some(s) => want == Some(s@),
        None => want is None,
    }
}

/// `e` describes the enum declaration `d`.
pub open spec fn describes_enum(e: EnumDescription, d: crate::ast::Enum) -> bool {
    &&& e.name@ == d.name@
    &&& e.values@.len() == d.values@.len()
    &&& forall|i: int|
        0 <= i < d.values@.len() ==> (#[trigger] e.values@[i]).0@ == d.values@[i].name@ && is_text(
            e.values@[i].1,
            description_of(d.values@[i].attributes@),
        )
}

/// `c` describes the class declaration `d` of a schema with the
/// declarations `tops`.
pub open spec fn describes_class(c: ClassDescription, d: crate::ast::Class, tops: Seq<Top>) -> bool {
    &&& c.name@ == d.name@
    &&& c.fields@.len() == d.fields@.len()
    &&& forall|i: int|
        0 <= i < d.fields@.len() ==> {
            let f = #[trigger] c.fields@[i];
            &&& f.0@ == d.fields@[i].name@
            &&& f.1@ == raw_type(tops, d.fields@[i].field_type)
            &&& is_text(f.2, description_of(d.fields@[i].attributes@))
        }
}

/// `f` holds the descriptions of all enums and of all classes of the
/// schema, in declaration order, and the target.
pub open spec fn is_output_format(f: OutputFormatContent, tops: Seq<Top>, target: SemanticTypeView) -> bool {
    let enums = positions(tops, TopKind::Enum, tops.len());
    let classes = positions(tops, TopKind::Class, tops.len());
    &&& f.target@ == target
    &&& f.enums@.len() == enums.len()
    &&& forall|i: int|
        0 <= i < enums.len() ==> describes_enum(#[trigger] f.enums@[i], tops[enums[i]]->Enum_0)
    &&& f.classes@.len() == classes.len()
    &&& forall|i: int|
        0 <= i < classes.len() ==> describes_class(
            #[trigger] f.classes@[i],
            tops[classes[i]]->Class_0,
            tops,
        )
}

/// The target that `name` stands for.
pub open spec fn named_target(tops: Seq<Top>, name: Seq<char>) -> Option<SemanticTypeView> {
    match named_type(tops, name) {
        Some(NamedType::Class(i)) => Some(SemanticTypeView::Class(tops[i].name_spec())),
        Some(NamedType::Enum(i)) => Some(SemanticTypeView::Enum(tops[i].name_spec())),
        None => None,
    }
}

/// The target where none is named: the first class, or else the first enum.
pub open spec fn default_target(tops: Seq<Top>) -> Option<SemanticTypeView> {
    let classes = positions(tops, TopKind::Class, tops.len());
    let enums = positions(tops, TopKind::Enum, tops.len());
    if classes.len() > 0 {
        Some(SemanticTypeView::Class(tops[classes[0]].name_spec()))
    } else if enums.len() > 0 {
        Some(SemanticTypeView::Enum(tops[enums[0]].name_spec()))
    } else {
        None
    }
}

/// The target of a schema for the name asked for, or the default target.
pub open spec fn target_of(tops: Seq<Top>, target_name: Option<String>) -> Option<SemanticTypeView> {
    match target_name {
        Some(name) => named_target(tops, name@),
        None => default_target(tops),
    }
}

fn describe(attrs: &Vec<Attribute>) -> (r: Option<String>)
    ensures
        is_text(r, description_of(attrs@)),
{
    let recognised = crate::repr::recognise(attrs, crate::diagnostics::Span::new(0, 0, 0));
    match recognised.description {
        Some(e) => e.as_string_text(),
        None => None,
    }
}

impl BamlContext {
    /// The context of a validated schema, for the target named or else the
    /// default target. `files` are the source texts that the spans of the
    /// diagnostics point into.
    pub fn try_from_schema(
        validated_schema: ValidatedSchema,
        files: &Vec<SourceFile>,
        target_name: Option<String>,
    ) -> (r: Result<BamlContext, ContextError>)
        ensures
            match r {
                Ok(ctx) => {
                    &&& !any_error(validated_schema.diagnostics@)
                    &&& ctx.validated_schema == validated_schema
                    &&& target_of(validated_schema.db.ast.tops@, target_name) == Some(ctx.target@)
                    &&& is_output_format(ctx.format, validated_schema.db.ast.tops@, ctx.target@)
                },
                Err(ContextError::InvalidSchema(report)) => any_error(validated_schema.diagnostics@)
                    && report@ == entries_shown(
                    files@,
                    validated_schema.diagnostics@,
                    validated_schema.diagnostics@.len(),
                ),
                Err(ContextError::UnknownTarget(name)) => {
                    &&& !any_error(validated_schema.diagnostics@)
                    &&& target_name matches Some(n)
                    &&& n@ == name@
                    &&& named_target(validated_schema.db.ast.tops@, n@) is None
                },
                Err(ContextError::NoTarget) => !any_error(validated_schema.diagnostics@)
                    && target_name is None && default_target(validated_schema.db.ast.tops@)
                    is None,
            },
    {
        if validated_schema.diagnostics.has_errors() {
            let formatted_error = validated_schema.diagnostics.to_pretty_string(files);
            return Err(ContextError::InvalidSchema(formatted_error));
        }
        match &target_name {
            Some(name) => {
                if validated_schema.db.find_type_by_str(name.as_str()).is_none() {
                    return Err(ContextError::UnknownTarget(name.clone()));
                }
            },
            None => {},
        }
        let target = match Self::build_target_type(&validated_schema, &target_name) {
            Ok(t) => t,
            Err(e) => {
                return Err(e);
            },
        };
        let format = Self::build_output_format(&validated_schema, target.duplicate());
        Ok(BamlContext { format, target, validated_schema })
    }

    /// The target of the output: the class or enum named, or else the first
    /// class declared, or else the first enum declared.
    pub fn build_target_type(validated_schema: &ValidatedSchema, target_name: &Option<String>) -> (r:
        Result<SemanticType, ContextError>)
        requires
            target_name matches Some(name) ==> named_type(validated_schema.db.ast.tops@, name@)
                is Some,
        ensures
            match target_of(validated_schema.db.ast.tops@, *target_name) {
                Some(t) => r matches Ok(got) && got@ == t,
                None => r matches Err(ContextError::NoTarget) && target_name is None,
            },
    {
        let db = &validated_schema.db;
        match target_name {
            Some(name) => {
                match db.find_type_by_str(name.as_str()) {
                    Some(TypeWalker::Class(cl)) => Ok(
                        SemanticType::Class(cl.ast_class().name.clone()),
                    ),
                    Some(TypeWalker::Enum(enm)) => Ok(
                        SemanticType::Enum(enm.ast_enum().name.clone()),
                    ),
                    None => Err(ContextError::NoTarget),
                }
            },
            None => {
                let classes = db.walk_classes();
                let enums = db.walk_enums();
                if classes.len() == 0 && enums.len() == 0 {
                    return Err(ContextError::NoTarget);
                }
                if classes.len() > 0 {
                    Ok(SemanticType::Class(classes[0].ast_class().name.clone()))
                } else {
                    Ok(SemanticType::Enum(enums[0].ast_enum().name.clone()))
                }
            },
        }
    }

    /// The descriptions of the enums and of the classes of the schema.
    pub fn build_output_format(validated_schema: &ValidatedSchema, target: SemanticType) -> (r:
        OutputFormatContent)
        ensures
            is_output_format(r, validated_schema.db.ast.tops@, target@),
    {
        let db = &validated_schema.db;
        let ghost tops = db.ast.tops@;
        let enum_walkers = db.walk_enums();
        let mut enums: Vec<EnumDescription> = Vec::new();
        let mut i: usize = 0;
        while i < enum_walkers.len()
            invariant
                i <= enum_walkers.len(),
                tops == db.ast.tops@,
                enum_walkers@.len() == positions(tops, TopKind::Enum, tops.len()).len(),
                forall|j: int|
                    0 <= j < enum_walkers@.len() ==> (#[trigger] enum_walkers@[j]).id.0
                        == positions(tops, TopKind::Enum, tops.len())[j] && *enum_walkers@[j].db
                        == *db && enum_walkers@[j].valid(),
                enums@.len() == i,
                forall|j: int|
                    0 <= j < i ==> describes_enum(
                        #[trigger] enums@[j],
                        tops[positions(tops, TopKind::Enum, tops.len())[j]]->Enum_0,
                    ),
            decreases enum_walkers.len() - i,
        {
            let ast_enum = enum_walkers[i].ast_enum();
            let mut values: Vec<(String, Option<String>)> = Vec::new();
            let mut k: usize = 0;
            while k < ast_enum.values.len()
                invariant
                    k <= ast_enum.values.len(),
                    values@.len() == k,
                    forall|j: int|
                        0 <= j < k ==> (#[trigger] values@[j]).0@ == ast_enum.values@[j].name@
                            && is_text(
                            values@[j].1,
                            description_of(ast_enum.values@[j].attributes@),
                        ),
                decreases ast_enum.values.len() - k,
            {
                let v = &ast_enum.values[k];
                values.push((v.name.clone(), describe(&v.attributes)));
                k += 1;
            }
            enums.push(EnumDescription { name: ast_enum.name.clone(), values });
            i += 1;
        }
        let class_walkers = db.walk_classes();
        let mut classes: Vec<ClassDescription> = Vec::new();
        let mut c: usize = 0;
        while c < class_walkers.len()
            invariant
                c <= class_walkers.len(),
                tops == db.ast.tops@,
                class_walkers@.len() == positions(tops, TopKind::Class, tops.len()).len(),
                forall|j: int|
                    0 <= j < class_walkers@.len() ==> (#[trigger] class_walkers@[j]).id.0
                        == positions(tops, TopKind::Class, tops.len())[j] && *class_walkers@[j].db
                        == *db && class_walkers@[j].valid(),
                classes@.len() == c,
                forall|j: int|
                    0 <= j < c ==> describes_class(
                        #[trigger] classes@[j],
                        tops[positions(tops, TopKind::Class, tops.len())[j]]->Class_0,
                        tops,
                    ),
            decreases class_walkers.len() - c,
        {
            let ast_class = class_walkers[c].ast_class();
            let mut fields: Vec<(String, SemanticType, Option<String>)> = Vec::new();
            let mut k: usize = 0;
            while k < ast_class.fields.len()
                invariant
                    k <= ast_class.fields.len(),
                    tops == db.ast.tops@,
                    fields@.len() == k,
                    forall|j: int|
                        0 <= j < k ==> {
                            let f = #[trigger] fields@[j];
                            &&& f.0@ == ast_class.fields@[j].name@
                            &&& f.1@ == raw_type(tops, ast_class.fields@[j].field_type)
                            &&& is_text(f.2, description_of(ast_class.fields@[j].attributes@))
                        },
                decreases ast_class.fields.len() - k,
            {
                let f = &ast_class.fields[k];
                fields.push(
                    (f.name.clone(), db.to_raw_field_type(&f.field_type), describe(&f.attributes)),
                );
                k += 1;
            }
            classes.push(ClassDescription { name: ast_class.name.clone(), fields });
            c += 1;
        }
        OutputFormatContent { enums, classes, target }
    }
}

} // verus!
