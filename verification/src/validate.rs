//! The validation pipeline: structural checks of enums and classes, then
//! the search for cycles among the dependencies of classes.

use vstd::prelude::*;
use crate::ast::{Class, Enum, Field};
use crate::coerce::plain_error;
use crate::cycle::{
    cycle_entries, cycle_report, is_dependency_cycle, is_normalized, no_dependency_cycle,
    validate_cycles,
};
use crate::graph::list_views;
use crate::diagnostics::{
    any_error, DatamodelError, DiagnosticView, Diagnostics, ErrorKind, ErrorView, Span,
};
use crate::parser_database::{named_type, valid_names, ParserDatabase};
use crate::text::{concat3, concat5, str_eq, string_views};
use crate::top::Top;
use crate::visit::{collect_names, flat_names};

verus! {

/// The name is that of a primitive kind.
pub open spec fn is_reserved(name: Seq<char>) -> bool {
    name == "string"@ || name == "int"@ || name == "float"@ || name == "bool"@ || name == "null"@
        || name == "image"@
}

/// What is recorded for the name of a declaration: an error where the
/// name is reserved.
pub open spec fn name_entries(name: Seq<char>, span: Span) -> Seq<DiagnosticView> {
    if is_reserved(name) {
        seq![
            plain_error(
                ErrorKind::Validation,
                "`"@ + name + "` is a reserved word and cannot name a declaration"@,
                span,
            ),
        ]
    } else {
        Seq::empty()
    }
}

/// One of the first `n` names is `name`.
pub open spec fn seen(names: Seq<Seq<char>>, name: Seq<char>, n: nat) -> bool
    decreases n,
{
    n > 0 && n <= names.len() && (names[n - 1] == name || seen(names, name, (n - 1) as nat))
}

/// The names of the values of an enum.
pub open spec fn value_names(e: Enum) -> Seq<Seq<char>> {
    Seq::new(e.values@.len(), |i: int| e.values@[i].name@)
}

/// The names of the fields of a class.
pub open spec fn field_names(c: Class) -> Seq<Seq<char>> {
    Seq::new(c.fields@.len(), |i: int| c.fields@[i].name@)
}

/// The error for a name that is declared twice.
pub open spec fn duplicate_entry(
    what: Seq<char>,
    name: Seq<char>,
    owner: Seq<char>,
    span: Span,
) -> DiagnosticView {
    plain_error(
        ErrorKind::DuplicateField,
        "Duplicate "@ + what + " `"@ + name + "` in `"@ + owner + "`"@,
        span,
    )
}

/// What is recorded for the first `n` values of an enum: an error for each
/// value whose name stands before it.
pub open spec fn values_entries(e: Enum, n: nat) -> Seq<DiagnosticView>
    decreases n,
{
    if n == 0 || n > e.values@.len() {
        Seq::empty()
    } else if seen(value_names(e), e.values@[n - 1].name@, (n - 1) as nat) {
        values_entries(e, (n - 1) as nat).push(
            duplicate_entry("value"@, e.values@[n - 1].name@, e.name@, e.values@[n - 1].span),
        )
    } else {
        values_entries(e, (n - 1) as nat)
    }
}

/// What is recorded for an enum.
pub open spec fn enum_entries(e: Enum) -> Seq<DiagnosticView> {
    name_entries(e.name@, e.span) + values_entries(e, e.values@.len())
}

/// What is recorded for the first `n` fields of a class: an error for each
/// field whose name stands before it.
pub open spec fn duplicate_field_entries(c: Class, n: nat) -> Seq<DiagnosticView>
    decreases n,
{
    if n == 0 || n > c.fields@.len() {
        Seq::empty()
    } else if seen(field_names(c), c.fields@[n - 1].name@, (n - 1) as nat) {
        duplicate_field_entries(c, (n - 1) as nat).push(
            duplicate_entry("field"@, c.fields@[n - 1].name@, c.name@, c.fields@[n - 1].span),
        )
    } else {
        duplicate_field_entries(c, (n - 1) as nat)
    }
}

/// The error for a name that stands for no type. It carries every name that
/// can stand for one.
pub open spec fn not_found_entry(tops: Seq<Top>, name: Seq<char>, span: Span) -> DiagnosticView {
    DiagnosticView::Error(
        ErrorView {
            kind: ErrorKind::NotFound,
            message: "Type `"@ + name + "` does not exist."@,
            names: valid_names(tops),
            span,
        },
    )
}

/// What is recorded for the first `n` of the names that a field refers to:
/// an error for each name that stands for no class and no enum.
pub open spec fn missing_entries(tops: Seq<Top>, names: Seq<Seq<char>>, span: Span, n: nat) -> Seq<
    DiagnosticView,
>
    decreases n,
{
    if n == 0 || n > names.len() {
        Seq::empty()
    } else if named_type(tops, names[n - 1]) is None {
        missing_entries(tops, names, span, (n - 1) as nat).push(
            not_found_entry(tops, names[n - 1], span),
        )
    } else {
        missing_entries(tops, names, span, (n - 1) as nat)
    }
}

/// What is recorded for the types of the first `n` fields of a class.
pub open spec fn field_types_entries(tops: Seq<Top>, c: Class, n: nat) -> Seq<DiagnosticView>
    decreases n,
{
    if n == 0 || n > c.fields@.len() {
        Seq::empty()
    } else {
        field_types_entries(tops, c, (n - 1) as nat) + missing_entries(
            tops,
            flat_names(c.fields@[n - 1].field_type),
            c.fields@[n - 1].span,
            flat_names(c.fields@[n - 1].field_type).len(),
        )
    }
}

/// What is recorded for a class.
pub open spec fn class_entries(tops: Seq<Top>, c: Class) -> Seq<DiagnosticView> {
    name_entries(c.name@, c.span) + duplicate_field_entries(c, c.fields@.len())
        + field_types_entries(tops, c, c.fields@.len())
}

/// What is recorded for the enums among the first `n` declarations.
pub open spec fn enums_entries(tops: Seq<Top>, n: nat) -> Seq<DiagnosticView>
    decreases n,
{
    if n == 0 || n > tops.len() {
        Seq::empty()
    } else {
        match tops[n - 1] {
            Top::Enum(e) => enums_entries(tops, (n - 1) as nat) + enum_entries(e),
            _ => enums_entries(tops, (n - 1) as nat),
        }
    }
}

/// What is recorded for the classes among the first `n` declarations.
pub open spec fn classes_entries(tops: Seq<Top>, n: nat) -> Seq<DiagnosticView>
    decreases n,
{
    if n == 0 || n > tops.len() {
        Seq::empty()
    } else {
        match tops[n - 1] {
            Top::Class(c) => classes_entries(tops, (n - 1) as nat) + class_entries(tops, c),
            _ => classes_entries(tops, (n - 1) as nat),
        }
    }
}

/// Records an error where the name of a declaration is reserved.
fn check_name(name: &str, span: Span, diagnostics: &mut Diagnostics)
    ensures
        final(diagnostics)@ == old(diagnostics)@ + name_entries(name@, span),
{
    let ghost before = diagnostics@;
    let reserved = str_eq(name, "string") || str_eq(name, "int") || str_eq(name, "float")
        || str_eq(name, "bool") || str_eq(name, "null") || str_eq(name, "image");
    if reserved {
        diagnostics.push_error(
            DatamodelError::new(
                ErrorKind::Validation,
                concat3("`", name, "` is a reserved word and cannot name a declaration"),
                span,
            ),
        );
    }
    proof {
        assert(diagnostics@ =~= before + name_entries(name@, span));
    }
}

/// Records the error for a name that is declared twice.
fn push_duplicate(what: &str, name: &str, owner: &str, span: Span, diagnostics: &mut Diagnostics)
    ensures
        final(diagnostics)@ == old(diagnostics)@.push(
            duplicate_entry(what@, name@, owner@, span),
        ),
{
    let head = concat5("Duplicate ", what, " `", name, "` in `");
    diagnostics.push_error(
        DatamodelError::new(ErrorKind::DuplicateField, concat3(head.as_str(), owner, "`"), span),
    );
}

/// Checks one enum.
fn validate_enum(e: &Enum, diagnostics: &mut Diagnostics)
    ensures
        final(diagnostics)@ == old(diagnostics)@ + enum_entries(*e),
{
    let ghost start = diagnostics@;
    check_name(e.name.as_str(), e.span, diagnostics);
    let ghost after_name = diagnostics@;
    let ghost names = value_names(*e);
    let mut i: usize = 0;
    proof {
        assert(diagnostics@ =~= after_name + values_entries(*e, 0));
    }
    while i < e.values.len()
        invariant
            i <= e.values.len(),
            names == value_names(*e),
            diagnostics@ == after_name + values_entries(*e, i as nat),
        decreases e.values.len() - i,
    {
        let mut j: usize = 0;
        let mut duplicate = false;
        while j < i
            invariant
                j <= i,
                i < e.values.len(),
                names == value_names(*e),
                duplicate == seen(names, e.values@[i as int].name@, j as nat),
            decreases i - j,
        {
            proof {
                assert(names[j as int] == e.values@[j as int].name@);
            }
            if str_eq(e.values[j].name.as_str(), e.values[i].name.as_str()) {
                duplicate = true;
            }
            j += 1;
        }
        if duplicate {
            push_duplicate(
                "value",
                e.values[i].name.as_str(),
                e.name.as_str(),
                e.values[i].span,
                diagnostics,
            );
        }
        proof {
            assert(diagnostics@ =~= after_name + values_entries(*e, (i + 1) as nat));
        }
        i += 1;
    }
    proof {
        assert(diagnostics@ =~= start + enum_entries(*e));
    }
}

/// Records an error for each name that a field refers to and that stands
/// for no type.
fn validate_field_type(db: &ParserDatabase, field: &Field, diagnostics: &mut Diagnostics)
    ensures
        final(diagnostics)@ == old(diagnostics)@ + missing_entries(
            db.ast.tops@,
            flat_names(field.field_type),
            field.span,
            flat_names(field.field_type).len(),
        ),
{
    let ghost start = diagnostics@;
    let ghost tops = db.ast.tops@;
    let mut names: Vec<String> = Vec::new();
    collect_names(&field.field_type, &mut names);
    let ghost wanted = flat_names(field.field_type);
    proof {
        assert(string_views(names@) =~= wanted);
        assert(diagnostics@ =~= start + missing_entries(tops, wanted, field.span, 0));
    }
    let mut i: usize = 0;
    while i < names.len()
        invariant
            i <= names.len(),
            tops == db.ast.tops@,
            string_views(names@) == wanted,
            diagnostics@ == start + missing_entries(tops, wanted, field.span, i as nat),
        decreases names.len() - i,
    {
        proof {
            assert(wanted[i as int] == names@[i as int]@);
        }
        if db.find_type_by_str(names[i].as_str()).is_none() {
            let candidates = db.valid_type_names();
            diagnostics.push_error(
                DatamodelError::with_names(
                    ErrorKind::NotFound,
                    concat3("Type `", names[i].as_str(), "` does not exist."),
                    candidates,
                    field.span,
                ),
            );
        }
        proof {
            assert(diagnostics@ =~= start + missing_entries(
                tops,
                wanted,
                field.span,
                (i + 1) as nat,
            ));
        }
        i += 1;
    }
}

/// Checks one class.
fn validate_class(db: &ParserDatabase, c: &Class, diagnostics: &mut Diagnostics)
    ensures
        final(diagnostics)@ == old(diagnostics)@ + class_entries(db.ast.tops@, *c),
{
    let ghost start = diagnostics@;
    let ghost tops = db.ast.tops@;
    check_name(c.name.as_str(), c.span, diagnostics);
    let ghost after_name = diagnostics@;
    let ghost names = field_names(*c);
    let mut i: usize = 0;
    proof {
        assert(diagnostics@ =~= after_name + duplicate_field_entries(*c, 0));
    }
    while i < c.fields.len()
        invariant
            i <= c.fields.len(),
            names == field_names(*c),
            diagnostics@ == after_name + duplicate_field_entries(*c, i as nat),
        decreases c.fields.len() - i,
    {
        let mut j: usize = 0;
        let mut duplicate = false;
        while j < i
            invariant
                j <= i,
                i < c.fields.len(),
                names == field_names(*c),
                duplicate == seen(names, c.fields@[i as int].name@, j as nat),
            decreases i - j,
        {
            proof {
                assert(names[j as int] == c.fields@[j as int].name@);
            }
            if str_eq(c.fields[j].name.as_str(), c.fields[i].name.as_str()) {
                duplicate = true;
            }
            j += 1;
        }
        if duplicate {
            push_duplicate(
                "field",
                c.fields[i].name.as_str(),
                c.name.as_str(),
                c.fields[i].span,
                diagnostics,
            );
        }
        proof {
            assert(diagnostics@ =~= after_name + duplicate_field_entries(*c, (i + 1) as nat));
        }
        i += 1;
    }
    let ghost after_fields = diagnostics@;
    let mut k: usize = 0;
    proof {
        assert(diagnostics@ =~= after_fields + field_types_entries(tops, *c, 0));
    }
    while k < c.fields.len()
        invariant
            k <= c.fields.len(),
            tops == db.ast.tops@,
            diagnostics@ == after_fields + field_types_entries(tops, *c, k as nat),
        decreases c.fields.len() - k,
    {
        validate_field_type(db, &c.fields[k], diagnostics);
        proof {
            assert(diagnostics@ =~= after_fields + field_types_entries(tops, *c, (k + 1) as nat));
        }
        k += 1;
    }
    proof {
        assert(diagnostics@ =~= start + class_entries(tops, *c));
    }
}

/// Checks the enums: no value of an enum is declared twice, and no enum
/// has a reserved name.
pub fn validate_enums(db: &ParserDatabase, diagnostics: &mut Diagnostics)
    ensures
        final(diagnostics)@ == old(diagnostics)@ + enums_entries(
            db.ast.tops@,
            db.ast.tops@.len(),
        ),
{
    let ghost start = diagnostics@;
    let mut i: usize = 0;
    proof {
        assert(diagnostics@ =~= start + enums_entries(db.ast.tops@, 0));
    }
    while i < db.ast.tops.len()
        invariant
            i <= db.ast.tops.len(),
            diagnostics@ == start + enums_entries(db.ast.tops@, i as nat),
        decreases db.ast.tops.len() - i,
    {
        match &db.ast.tops[i] {
            Top::Enum(e) => {
                validate_enum(e, diagnostics);
            },
            _ => {},
        }
        proof {
            assert(diagnostics@ =~= start + enums_entries(db.ast.tops@, (i + 1) as nat));
        }
        i += 1;
    }
}

/// Checks the classes: no field of a class is declared twice, no class has
/// a reserved name, and every name that a field refers to stands for a class
/// or an enum.
pub fn validate_classes(db: &ParserDatabase, diagnostics: &mut Diagnostics)
    ensures
        final(diagnostics)@ == old(diagnostics)@ + classes_entries(
            db.ast.tops@,
            db.ast.tops@.len(),
        ),
{
    let ghost start = diagnostics@;
    let mut i: usize = 0;
    proof {
        assert(diagnostics@ =~= start + classes_entries(db.ast.tops@, 0));
    }
    while i < db.ast.tops.len()
        invariant
            i <= db.ast.tops.len(),
            diagnostics@ == start + classes_entries(db.ast.tops@, i as nat),
        decreases db.ast.tops.len() - i,
    {
        match &db.ast.tops[i] {
            Top::Class(c) => {
                validate_class(db, c, diagnostics);
            },
            _ => {},
        }
        proof {
            assert(diagnostics@ =~= start + classes_entries(db.ast.tops@, (i + 1) as nat));
        }
        i += 1;
    }
}

/// What the structural checks record: the entries for the enums, then
/// those for the classes.
pub open spec fn structural_entries(tops: Seq<Top>) -> Seq<DiagnosticView> {
    enums_entries(tops, tops.len()) + classes_entries(tops, tops.len())
}

/// There is an error among two lists of entries joined exactly where
/// there is one in either.
pub proof fn lemma_error_in_either(a: Seq<DiagnosticView>, b: Seq<DiagnosticView>)
    ensures
        any_error(a + b) <==> any_error(a) || any_error(b),
{
    let all = a + b;
    if any_error(a) {
        let i = choose|i: int| 0 <= i < a.len() && (#[trigger] a[i]) is Error;
        assert(all[i] is Error);
    }
    if any_error(b) {
        let i = choose|i: int| 0 <= i < b.len() && (#[trigger] b[i]) is Error;
        assert(all[a.len() + i] is Error);
    }
    if any_error(all) {
        let i = choose|i: int| 0 <= i < all.len() && (#[trigger] all[i]) is Error;
        if i < a.len() {
            assert(a[i] is Error);
        } else {
            assert(b[i - a.len()] is Error);
        }
    }
}

/// A name that stands for no type is recorded as an error.
proof fn lemma_missing_is_error(tops: Seq<Top>, names: Seq<Seq<char>>, span: Span, n: nat, k: int)
    requires
        0 <= k < n <= names.len(),
        named_type(tops, names[k]) is None,
    ensures
        any_error(missing_entries(tops, names, span, n)),
    decreases n,
{
    let before = missing_entries(tops, names, span, (n - 1) as nat);
    let now = missing_entries(tops, names, span, n);
    if k < n - 1 {
        lemma_missing_is_error(tops, names, span, (n - 1) as nat, k);
        let i = choose|i: int| 0 <= i < before.len() && (#[trigger] before[i]) is Error;
        assert(now[i] is Error);
    } else {
        assert(now[before.len() as int] is Error);
    }
}

/// An error for the type of a field is an error for the class.
proof fn lemma_field_error_is_class_error(tops: Seq<Top>, c: Class, n: nat, f: int)
    requires
        0 <= f < n <= c.fields@.len(),
        any_error(
            missing_entries(
                tops,
                flat_names(c.fields@[f].field_type),
                c.fields@[f].span,
                flat_names(c.fields@[f].field_type).len(),
            ),
        ),
    ensures
        any_error(field_types_entries(tops, c, n)),
    decreases n,
{
    let before = field_types_entries(tops, c, (n - 1) as nat);
    let last = missing_entries(
        tops,
        flat_names(c.fields@[n - 1].field_type),
        c.fields@[n - 1].span,
        flat_names(c.fields@[n - 1].field_type).len(),
    );
    lemma_error_in_either(before, last);
    if f < n - 1 {
        lemma_field_error_is_class_error(tops, c, (n - 1) as nat, f);
    }
}

/// An error for a class is an error of the structural checks.
proof fn lemma_class_error_is_recorded(tops: Seq<Top>, n: nat, i: int)
    requires
        0 <= i < n <= tops.len(),
        tops[i] matches Top::Class(c) && any_error(class_entries(tops, c)),
    ensures
        any_error(classes_entries(tops, n)),
    decreases n,
{
    let before = classes_entries(tops, (n - 1) as nat);
    match tops[n - 1] {
        Top::Class(c) => {
            lemma_error_in_either(before, class_entries(tops, c));
        },
        _ => {},
    }
    if i < n - 1 {
        lemma_class_error_is_recorded(tops, (n - 1) as nat, i);
    }
}

/// Where the structural checks find no error, every name that the type of
/// a field of a class refers to stands for a class or an enum: the types of
/// the fields resolve without an unknown name.
pub proof fn lemma_checked_names_resolve(tops: Seq<Top>, i: int, f: int, k: int)
    requires
        !any_error(structural_entries(tops)),
        0 <= i < tops.len(),
        tops[i] matches Top::Class(c) && 0 <= f < c.fields@.len() && 0 <= k < flat_names(
            c.fields@[f].field_type,
        ).len(),
    ensures
        tops[i] matches Top::Class(c) && named_type(
            tops,
            flat_names(c.fields@[f].field_type)[k],
        ) is Some,
{
    let c = tops[i]->Class_0;
    let names = flat_names(c.fields@[f].field_type);
    if named_type(tops, names[k]) is None {
        lemma_missing_is_error(tops, names, c.fields@[f].span, names.len(), k);
        lemma_field_error_is_class_error(tops, c, c.fields@.len(), f);
        lemma_error_in_either(
            name_entries(c.name@, c.span) + duplicate_field_entries(c, c.fields@.len()),
            field_types_entries(tops, c, c.fields@.len()),
        );
        lemma_class_error_is_recorded(tops, tops.len(), i);
        lemma_error_in_either(enums_entries(tops, tops.len()), classes_entries(tops, tops.len()));
    }
}

/// `reported` are cycles among the dependencies of the classes, each
/// turned so that the member with the smallest name comes first and none
/// twice; there is none exactly when there is no cycle.
pub open spec fn is_cycle_report(db: ParserDatabase, reported: Seq<Seq<usize>>) -> bool {
    &&& forall|i: int|
        0 <= i < reported.len() ==> is_dependency_cycle(db, #[trigger] reported[i])
            && is_normalized(db.ast.tops@, reported[i])
    &&& forall|i: int, j: int|
        0 <= i < j < reported.len() ==> (#[trigger] reported[i]) != (#[trigger] reported[j])
    &&& reported.len() == 0 <==> no_dependency_cycle(db)
}

/// The cycles that the pipeline reports: those found among the
/// dependencies of the classes, and none where a structural check found an
/// error.
pub open spec fn reported_cycles(db: ParserDatabase) -> Seq<Seq<usize>> {
    if any_error(structural_entries(db.ast.tops@)) {
        Seq::empty()
    } else {
        cycle_report(db)
    }
}

/// What the validation pipeline records: the entries of the structural
/// checks, then an error for each cycle reported.
pub open spec fn validation_entries(db: ParserDatabase) -> Seq<DiagnosticView> {
    structural_entries(db.ast.tops@) + cycle_entries(
        db.ast.tops@,
        reported_cycles(db),
        reported_cycles(db).len(),
    )
}

/// Runs the validation pipeline: the checks of the enums, the checks of the
/// classes, and, where these found no error, the search for cycles among the
/// dependencies of the classes. Gives the cycles that were reported.
pub fn validate(db: &ParserDatabase, diagnostics: &mut Diagnostics) -> (reported: Vec<Vec<usize>>)
    ensures
        final(diagnostics)@ == old(diagnostics)@ + validation_entries(*db),
        list_views(reported@) == reported_cycles(*db),
        !any_error(structural_entries(db.ast.tops@)) ==> is_cycle_report(
            *db,
            reported_cycles(*db),
        ),
{
    let ghost start = diagnostics@;
    let mut found = Diagnostics::new();
    validate_enums(db, &mut found);
    validate_classes(db, &mut found);
    proof {
        assert(found@ =~= structural_entries(db.ast.tops@));
    }
    let failed = found.has_errors();
    diagnostics.push(found);
    if !failed {
        let reported = validate_cycles(db, diagnostics);
        proof {
            assert(diagnostics@ =~= start + validation_entries(*db));
            let views = list_views(reported@);
            assert forall|i: int| 0 <= i < views.len() implies is_dependency_cycle(
                *db,
                #[trigger] views[i],
            ) && is_normalized(db.ast.tops@, views[i]) by {
                assert(views[i] == reported@[i]@);
            }
            assert forall|i: int, j: int| 0 <= i < j < views.len() implies (#[trigger] views[i])
                != (#[trigger] views[j]) by {
                assert(views[i] == reported@[i]@);
                assert(views[j] == reported@[j]@);
            }
        }
        reported
    } else {
        let reported: Vec<Vec<usize>> = Vec::new();
        proof {
            assert(diagnostics@ =~= start + validation_entries(*db));
            assert(list_views(reported@) =~= reported_cycles(*db));
        }
        reported
    }
}

} // verus!
