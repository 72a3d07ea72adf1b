//! From parsed source texts to a validated schema.

use vstd::prelude::*;
use crate::ast::SchemaAst;
use crate::attributes::{
    lemma_records_from_empty, records_at, records_hold, resolve_attributes, same_but_records,
};
use crate::context::Context;
use crate::cycle::{
    cycle_entries, dependency_lists, dependency_names, depends_on, is_dependency_cycle,
    no_dependency_cycle, successors_of,
};
use crate::diagnostics::{any_error, DiagnosticView, Diagnostics};
use crate::finalize::{linked_upto, relinked};
use crate::parser_database::ParserDatabase;
use crate::top::Top;
use crate::validate::{
    is_cycle_report, reported_cycles, structural_entries, validate, validation_entries,
};
use crate::visit::{
    declared, holds_at, lemma_filled_from_empty, resolve_types, tables_hold, tops_entries,
};
use crate::types::Types;

verus! {

/// A database and what was found while it was built and validated.
#[derive(Debug)]
pub struct ValidatedSchema {
    pub db: ParserDatabase,
    pub diagnostics: Diagnostics,
}

/// What the parser made of one source text: a syntax tree with the
/// diagnostics found on the way, or the diagnostics alone where it gave up.
#[derive(Debug)]
pub enum ParsedFile {
    Parsed(SchemaAst, Diagnostics),
    Failed(Diagnostics),
}

/// The declarations of the first `n` files, in order.
pub open spec fn merged_tops(files: Seq<ParsedFile>, n: nat) -> Seq<Top>
    decreases n,
{
    if n == 0 || n > files.len() {
        Seq::empty()
    } else {
        match files[n - 1] {
            ParsedFile::Parsed(ast, _) => merged_tops(files, (n - 1) as nat) + ast.tops@,
            ParsedFile::Failed(_) => merged_tops(files, (n - 1) as nat),
        }
    }
}

/// The diagnostics of the parser for the first `n` files, in order.
pub open spec fn parse_entries(files: Seq<ParsedFile>, n: nat) -> Seq<DiagnosticView>
    decreases n,
{
    if n == 0 || n > files.len() {
        Seq::empty()
    } else {
        match files[n - 1] {
            ParsedFile::Parsed(_, found) => parse_entries(files, (n - 1) as nat) + found@,
            ParsedFile::Failed(found) => parse_entries(files, (n - 1) as nat) + found@,
        }
    }
}

/// What is found up to and including the pass that fills the tables. The
/// pass is left out where the parser found an error.
pub open spec fn resolved_entries(files: Seq<ParsedFile>) -> Seq<DiagnosticView> {
    let parsed = parse_entries(files, files.len());
    let tops = merged_tops(files, files.len());
    if any_error(parsed) {
        parsed
    } else {
        parsed + tops_entries(tops, tops.len())
    }
}

/// `schema` is what validation makes of the parsed files. The database
/// holds the declarations of all files in order. The diagnostics hold what
/// the parser found, then what the pass that fills the tables found, then
/// what the validation pipeline found; each stage is left out where an
/// error was found before it. The tables are empty where the parser found
/// an error, and else hold what the declarations bring. Where no error was
/// found at all, the markers of every prompt are linked.
pub open spec fn is_validation_of(schema: ValidatedSchema, files: Seq<ParsedFile>) -> bool {
    let tops = merged_tops(files, files.len());
    let parsed = parse_entries(files, files.len());
    let resolved = resolved_entries(files);
    &&& schema.db.ast.tops@ == tops
    &&& if any_error(parsed) {
        &&& schema.diagnostics@ == parsed
        &&& schema.db.types.is_empty()
    } else {
        &&& tables_hold(schema.db.types, tops, tops.len())
        &&& records_hold(schema.db.types, tops, tops.len())
        &&& if any_error(resolved) {
            schema.diagnostics@ == resolved
        } else {
            &&& schema.diagnostics@ == resolved + validation_entries(schema.db)
            &&& !any_error(structural_entries(tops)) ==> is_cycle_report(
                schema.db,
                reported_cycles(schema.db),
            )
            &&& !any_error(schema.diagnostics@) ==> linked_upto(schema.db, tops.len())
        }
    }
}

/// The classes that a class depends on do not depend on the properties of
/// the variants.
proof fn lemma_successors_ignore_properties(a: ParserDatabase, b: ParserDatabase, u: int, n: nat)
    requires
        a.ast == b.ast,
        a.types.class_dependencies == b.types.class_dependencies,
    ensures
        successors_of(a, u, n) == successors_of(b, u, n),
    decreases n,
{
    if n > 0 {
        lemma_successors_ignore_properties(a, b, u, (n - 1) as nat);
    }
}

/// The cycles that are reported do not depend on the properties of the variants.
proof fn lemma_report_ignores_properties(a: ParserDatabase, b: ParserDatabase)
    requires
        a.ast == b.ast,
        a.types.class_dependencies == b.types.class_dependencies,
    ensures
        reported_cycles(b) == reported_cycles(a),
        validation_entries(b) == validation_entries(a),
        is_cycle_report(a, reported_cycles(a)) ==> is_cycle_report(b, reported_cycles(b)),
{
    assert(dependency_lists(a) =~= dependency_lists(b)) by {
        assert forall|u: int| 0 <= u < a.ast.tops@.len() implies successors_of(
            a,
            u,
            dependency_names(a, u).len(),
        ) == successors_of(b, u, dependency_names(b, u).len()) by {
            lemma_successors_ignore_properties(a, b, u, dependency_names(a, u).len());
        }
    }
    assert forall|c: Seq<usize>| is_dependency_cycle(a, c) == is_dependency_cycle(b, c) by {
        assert forall|u: int, v: int| depends_on(a, u, v) == depends_on(b, u, v) by {
            assert(dependency_names(a, u) == dependency_names(b, u));
        }
    }
    let reported = reported_cycles(a);
    if is_cycle_report(a, reported) {
        if reported.len() == 0 {
            assert forall|c: Seq<usize>| !is_dependency_cycle(b, c) by {
                assert(!is_dependency_cycle(a, c));
            }
        } else {
            assert(is_dependency_cycle(a, reported[0]));
            assert(is_dependency_cycle(b, reported[0]));
        }
    }
}

/// What the tables hold does not depend on the decorations recorded.
proof fn lemma_hold_ignores_records(a: Types, b: Types, tops: Seq<Top>)
    requires
        same_but_records(b, a),
        tables_hold(a, tops, tops.len()),
    ensures
        tables_hold(b, tops, tops.len()),
{
    assert forall|k: usize| #[trigger] holds_at(declared(tops, k, tops.len()), b, k) by {
        assert(holds_at(declared(tops, k, tops.len()), a, k));
    }
}

/// The tables hold the same after the markers are linked.
proof fn lemma_hold_survives_linking(a: ParserDatabase, b: ParserDatabase)
    requires
        relinked(b, a),
        tables_hold(a.types, a.ast.tops@, a.ast.tops@.len()),
        records_hold(a.types, a.ast.tops@, a.ast.tops@.len()),
    ensures
        tables_hold(b.types, a.ast.tops@, a.ast.tops@.len()),
        records_hold(b.types, a.ast.tops@, a.ast.tops@.len()),
{
    let tops = a.ast.tops@;
    assert forall|k: usize| #[trigger] records_at(declared(tops, k, tops.len()), b.types, k) by {
        assert(records_at(declared(tops, k, tops.len()), a.types, k));
    }
    assert forall|k: usize| #[trigger] holds_at(declared(tops, k, tops.len()), b.types, k) by {
        assert(holds_at(declared(tops, k, tops.len()), a.types, k));
        assert(b.types.variant_properties@.contains_key(k)
            == a.types.variant_properties@.contains_key(k)) by {
            assert(b.types.variant_properties@.dom().contains(k)
                == a.types.variant_properties@.dom().contains(k));
        }
        if a.types.variant_properties@.contains_key(k) {
            assert(crate::finalize::same_binding(
                b.types.variant_properties@[k],
                a.types.variant_properties@[k],
            ));
        }
    }
}

/// The errors for the cycles reported: one for each cycle.
proof fn lemma_cycle_entries_are_errors(tops: Seq<Top>, cycles: Seq<Seq<usize>>, n: nat)
    requires
        n <= cycles.len(),
    ensures
        cycle_entries(tops, cycles, n).len() == n,
        forall|i: int| 0 <= i < n ==> (#[trigger] cycle_entries(tops, cycles, n)[i]) is Error,
    decreases n,
{
    if n > 0 {
        lemma_cycle_entries_are_errors(tops, cycles, (n - 1) as nat);
    }
}

/// A schema that was validated without an error has no cycle among the
/// dependencies of its classes.
pub proof fn lemma_valid_schema_is_acyclic(schema: ValidatedSchema, files: Seq<ParsedFile>)
    requires
        is_validation_of(schema, files),
        !any_error(schema.diagnostics@),
    ensures
        no_dependency_cycle(schema.db),
{
    let tops = merged_tops(files, files.len());
    let parsed = parse_entries(files, files.len());
    let resolved = resolved_entries(files);
    let structural = structural_entries(tops);
    let reported = reported_cycles(schema.db);
    let entries = cycle_entries(tops, reported, reported.len());
    let found = schema.diagnostics@;
    if any_error(parsed) {
        let i = choose|i: int| 0 <= i < parsed.len() && (#[trigger] parsed[i]) is Error;
        assert(found[i] is Error);
    } else if any_error(resolved) {
        let i = choose|i: int| 0 <= i < resolved.len() && (#[trigger] resolved[i]) is Error;
        assert(found[i] is Error);
    } else {
        assert(found == resolved + (structural + entries));
        if any_error(structural) {
            let i = choose|i: int| 0 <= i < structural.len() && (#[trigger] structural[i]) is Error;
            assert(found[resolved.len() + i] == structural[i]);
        }
        lemma_cycle_entries_are_errors(tops, reported, reported.len());
        if reported.len() > 0 {
            assert(entries[0] is Error);
            assert(found[(resolved.len() + structural.len()) as int] == entries[0]);
        }
    }
}

/// Merges the parsed files into one database, in the order given, and
/// validates it.
pub fn validate_file(files: Vec<ParsedFile>) -> (schema: ValidatedSchema)
    ensures
        is_validation_of(schema, files@),
{
    let mut files = files;
    let ghost all = files@;
    let mut diagnostics = Diagnostics::new();
    let mut db = ParserDatabase::new();
    let ghost mut done: nat = 0;
    proof {
        assert(all.skip(0) =~= all);
        assert(diagnostics@ =~= parse_entries(all, 0));
        assert(db.ast.tops@ =~= merged_tops(all, 0));
    }
    while files.len() > 0
        invariant
            done <= all.len(),
            files@ == all.skip(done as int),
            diagnostics@ == parse_entries(all, done),
            db.ast.tops@ == merged_tops(all, done),
            db.types.is_empty(),
        decreases files.len(),
    {
        let file = files.remove(0);
        proof {
            assert(file == all[done as int]);
            assert(files@ =~= all.skip(done as int + 1));
        }
        match file {
            ParsedFile::Parsed(ast, found) => {
                diagnostics.push(found);
                db.add_ast(ast);
            },
            ParsedFile::Failed(found) => {
                diagnostics.push(found);
            },
        }
        proof {
            done = done + 1;
        }
    }
    proof {
        assert(done == all.len());
    }
    if diagnostics.has_errors() {
        return ValidatedSchema { db, diagnostics };
    }
    let ParserDatabase { ast, types } = db;
    let ghost empty = types;
    let mut ctx = Context { types, diagnostics };
    resolve_types(&mut ctx, &ast);
    let ghost filled = ctx.types;
    resolve_attributes(&mut ctx, &ast);
    let Context { types, diagnostics } = ctx;
    let mut db = ParserDatabase { ast, types };
    let mut diagnostics = diagnostics;
    proof {
        lemma_filled_from_empty(empty, filled, db.ast.tops@, db.ast.tops@.len());
        lemma_hold_ignores_records(filled, db.types, db.ast.tops@);
        lemma_records_from_empty(filled, db.types, db.ast.tops@, db.ast.tops@.len());
    }
    if diagnostics.has_errors() {
        return ValidatedSchema { db, diagnostics };
    }
    // The tables are filled without error: run the validation pipeline.
    validate(&db, &mut diagnostics);
    if diagnostics.has_errors() {
        return ValidatedSchema { db, diagnostics };
    }
    // The schema is valid: link the markers of the prompts.

    let ghost validated = db;
    db.finalize();
    let schema = ValidatedSchema { db, diagnostics };
    proof {
        lemma_report_ignores_properties(validated, schema.db);
        lemma_hold_survives_linking(validated, schema.db);
    }
    schema
}

} // verus!
