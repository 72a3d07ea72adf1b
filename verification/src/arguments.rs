//! The arguments of a test case: a map from names to values that keeps the
//! order in which the names were first given.

use indexmap::IndexMap;
use vstd::prelude::*;
use crate::ast::Expression;
use crate::diagnostics::Span;
use crate::syntax_view::ExpressionView;
use crate::value::{lemma_key_position_by_names, lemma_key_position_holds, put};

verus! {

/// `indexmap::IndexMap`, declared so that a map can stand in a field and in
/// a signature. Nothing is claimed of the type by itself; what a map of
/// arguments holds is named by `argument_entries`.
#[verifier::external_type_specification]
#[verifier::external_body]
#[verifier::reject_recursive_types(K)]
#[verifier::reject_recursive_types(V)]
#[verifier::reject_recursive_types(S)]
pub struct ExIndexMap<K, V, S>(IndexMap<K, V, S>);

/// The entries of the map in their order: each name with the place of the
/// argument and its value.
pub uninterp spec fn argument_entries(m: IndexMap<String, (Span, Expression)>) -> Seq<
    (Seq<char>, (Span, Expression)),
>;

/// The entries with the contents of their values.
pub open spec fn argument_views(entries: Seq<(Seq<char>, (Span, Expression))>) -> Seq<
    (Seq<char>, (Span, ExpressionView)),
> {
    Seq::new(entries.len(), |i: int| (entries[i].0, (entries[i].1.0, entries[i].1.1@)))
}

/// Makes an empty map with `IndexMap::new`.
#[verifier::external_body]
pub(crate) fn arguments_new() -> (m: IndexMap<String, (Span, Expression)>)
    ensures
        argument_entries(m) == Seq::<(Seq<char>, (Span, Expression))>::empty(),
{
    IndexMap::new()
}

/// Calls `IndexMap::insert`: a name that is present keeps its place and has
/// its value replaced, a new name is put last.
#[verifier::external_body]
pub(crate) fn arguments_insert(
    m: &mut IndexMap<String, (Span, Expression)>,
    key: String,
    value: (Span, Expression),
)
    ensures
        argument_entries(*final(m)) == put(argument_entries(*old(m)), key@, value),
{
    m.insert(key, value);
}

/// Putting an argument into the entries and its content into their
/// contents keeps the two in step.
pub proof fn lemma_put_argument(
    entries: Seq<(Seq<char>, (Span, Expression))>,
    key: Seq<char>,
    span: Span,
    value: Expression,
)
    ensures
        argument_views(put(entries, key, (span, value))) == put(
            argument_views(entries),
            key,
            (span, value@),
        ),
{
    let views = argument_views(entries);
    lemma_key_position_by_names(entries, views, key);
    lemma_key_position_holds(entries, key);
    assert(argument_views(put(entries, key, (span, value))) =~= put(views, key, (span, value@)));
}

} // verus!
