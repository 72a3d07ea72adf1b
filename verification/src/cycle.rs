//! Cycles among the dependencies of classes.
//!
//! A class depends on another where a name among its recorded dependencies
//! stands for that class, whatever the name is wrapped in where it is used.

use vstd::prelude::*;
use crate::diagnostics::{DatamodelError, DiagnosticView, Diagnostics, ErrorKind, ErrorView};
use crate::graph::{edge, find_cycles, found_cycles, graph_ok, is_cycle, list_views};
use crate::parser_database::{named_type, NamedType, ParserDatabase};
use crate::text::{chars_lt, concat3, join, joined, lex_lt, string_views, to_chars};
use crate::top::Top;
use crate::walkers::TypeWalker;

verus! {

/// The names recorded as the dependencies of the class at position `u`.
pub open spec fn dependency_names(db: ParserDatabase, u: int) -> Seq<Seq<char>> {
    if 0 <= u < db.ast.tops@.len() && db.ast.tops@[u] is Class
        && db.types.class_dependencies@.contains_key(u as usize) {
        string_views(db.types.class_dependencies@[u as usize]@)
    } else {
        Seq::empty()
    }
}

/// The position of the class that `name` stands for.
pub open spec fn class_named(tops: Seq<Top>, name: Seq<char>) -> Option<int> {
    match named_type(tops, name) {
        Some(NamedType::Class(v)) => Some(v),
        _ => None,
    }
}

/// The class at position `u` depends on the class at position `v`.
pub open spec fn depends_on(db: ParserDatabase, u: int, v: int) -> bool {
    exists|k: int|
        0 <= k < dependency_names(db, u).len() && class_named(
            db.ast.tops@,
            #[trigger] dependency_names(db, u)[k],
        ) == Some(v)
}

/// Each class of `c` depends on the next, and the last on the first.
pub open spec fn is_dependency_cycle(db: ParserDatabase, c: Seq<usize>) -> bool {
    &&& c.len() > 0
    &&& forall|k: int|
        0 <= k && k + 1 < c.len() ==> depends_on(db, (#[trigger] c[k]) as int, c[k + 1] as int)
    &&& depends_on(db, c.last() as int, c[0] as int)
}

/// The names of the declarations at the positions of `c`.
pub open spec fn member_names(tops: Seq<Top>, c: Seq<usize>) -> Seq<Seq<char>> {
    Seq::new(c.len(), |k: int| tops[c[k] as int].name_spec())
}

/// No member of `c` has a name that comes before the name of the first.
pub open spec fn is_normalized(tops: Seq<Top>, c: Seq<usize>) -> bool {
    forall|k: int|
        0 <= k < c.len() ==> !lex_lt(
            (#[trigger] member_names(tops, c)[k]),
            member_names(tops, c)[0],
        )
}

/// The error that reports the cycle `c`: it carries the names of the
/// members in order and stands at the first of them.
pub open spec fn cycle_entry(tops: Seq<Top>, c: Seq<usize>) -> DiagnosticView {
    DiagnosticView::Error(
        ErrorView {
            kind: ErrorKind::Cycle,
            message: "These classes form a dependency cycle: "@ + joined(
                member_names(tops, c),
                " -> "@,
            ),
            names: member_names(tops, c),
            span: tops[c[0] as int].span_spec(),
        },
    )
}

/// The errors that report the first `n` of the cycles.
pub open spec fn cycle_entries(tops: Seq<Top>, cycles: Seq<Seq<usize>>, n: nat) -> Seq<
    DiagnosticView,
>
    decreases n,
{
    if n == 0 || n > cycles.len() {
        Seq::empty()
    } else {
        cycle_entries(tops, cycles, (n - 1) as nat).push(cycle_entry(tops, cycles[n - 1]))
    }
}

/// The classes that the first `n` names recorded as dependencies of the
/// class at position `u` stand for, in the order of the names. A name that
/// stands for no class gives none.
pub open spec fn successors_of(db: ParserDatabase, u: int, n: nat) -> Seq<usize>
    decreases n,
{
    let names = dependency_names(db, u);
    if n == 0 || n > names.len() {
        Seq::empty()
    } else {
        match class_named(db.ast.tops@, names[n - 1]) {
            Some(v) => successors_of(db, u, (n - 1) as nat).push(v as usize),
            None => successors_of(db, u, (n - 1) as nat),
        }
    }
}

/// The graph of the dependencies: for each declaration the classes that it
/// depends on.
pub open spec fn dependency_lists(db: ParserDatabase) -> Seq<Seq<usize>> {
    Seq::new(
        db.ast.tops@.len(),
        |u: int| successors_of(db, u, dependency_names(db, u).len()),
    )
}

/// The position of the first among the smallest of the first `n` names.
pub open spec fn smallest(names: Seq<Seq<char>>, n: nat) -> int
    decreases n,
{
    if n <= 1 {
        0
    } else {
        let best = smallest(names, (n - 1) as nat);
        if lex_lt(names[n - 1], names[best]) {
            n - 1
        } else {
            best
        }
    }
}

/// `c` turned so that the member at position `m` comes first.
pub open spec fn turned(c: Seq<usize>, m: int) -> Seq<usize> {
    c.subrange(m, c.len() as int) + c.subrange(0, m)
}

/// The cycle turned so that the member with the smallest name comes first.
pub open spec fn normalized(tops: Seq<Top>, c: Seq<usize>) -> Seq<usize> {
    turned(c, smallest(member_names(tops, c), c.len()))
}

/// The first `n` of the cycles found, each turned so that the member with
/// the smallest name comes first, and each once: one that is the same as
/// an earlier one is left out.
pub open spec fn report_of(tops: Seq<Top>, found: Seq<Seq<usize>>, n: nat) -> Seq<Seq<usize>>
    decreases n,
{
    if n == 0 || n > found.len() {
        Seq::empty()
    } else {
        let before = report_of(tops, found, (n - 1) as nat);
        let c = normalized(tops, found[n - 1]);
        if before.contains(c) {
            before
        } else {
            before.push(c)
        }
    }
}

/// The cycles that are reported for the classes of the database: those
/// that a depth-first search of the graph of the dependencies finds, each
/// turned so that the member with the smallest name comes first, and each
/// once.
pub open spec fn cycle_report(db: ParserDatabase) -> Seq<Seq<usize>> {
    let found = found_cycles(dependency_lists(db));
    report_of(db.ast.tops@, found, found.len())
}

/// The classes have no cycle among their dependencies.
pub open spec fn no_dependency_cycle(db: ParserDatabase) -> bool {
    forall|c: Seq<usize>| !is_dependency_cycle(db, c)
}

/// The graph is that of the dependencies: it has an edge exactly where a
/// class depends on another.
pub open spec fn graph_of(db: ParserDatabase, adj: Seq<Vec<usize>>) -> bool {
    &&& adj.len() == db.ast.tops@.len()
    &&& list_views(adj) == dependency_lists(db)
    &&& graph_ok(adj)
    &&& forall|u: int, v: int|
        0 <= u < adj.len() ==> (#[trigger] edge(adj, u, v) <==> depends_on(db, u, v))
}

/// A cycle of the graph is a cycle of dependencies, and the other way round.
pub proof fn lemma_cycle_of_graph(db: ParserDatabase, adj: Seq<Vec<usize>>, c: Seq<usize>)
    requires
        graph_of(db, adj),
        forall|k: int| 0 <= k < c.len() ==> (#[trigger] c[k]) < adj.len(),
    ensures
        is_cycle(adj, c) <==> is_dependency_cycle(db, c),
{
    if c.len() > 0 {
        if is_cycle(adj, c) {
            assert forall|k: int| 0 <= k && k + 1 < c.len() implies depends_on(
                db,
                (#[trigger] c[k]) as int,
                c[k + 1] as int,
            ) by {
                assert(edge(adj, c[k] as int, c[k + 1] as int));
            }
            assert(edge(adj, c.last() as int, c[0] as int));
        }
        if is_dependency_cycle(db, c) {
            assert forall|k: int| 0 <= k && k + 1 < c.len() implies edge(
                adj,
                (#[trigger] c[k]) as int,
                c[k + 1] as int,
            ) by {
                assert(depends_on(db, c[k] as int, c[k + 1] as int));
            }
            assert(edge(adj, c.last() as int, c[0] as int));
        }
    }
}

/// The members of a cycle of dependencies are positions of declarations.
pub proof fn lemma_cycle_members(db: ParserDatabase, c: Seq<usize>, k: int)
    requires
        is_dependency_cycle(db, c),
        0 <= k < c.len(),
    ensures
        c[k] < db.ast.tops@.len(),
{
    if k + 1 < c.len() {
        assert(depends_on(db, c[k] as int, c[k + 1] as int));
    } else {
        assert(depends_on(db, c.last() as int, c[0] as int));
    }
}

/// The classes that the class at position `u` depends on.
fn successors(db: &ParserDatabase, u: usize) -> (r: Vec<usize>)
    requires
        u < db.ast.tops@.len(),
    ensures
        r@ == successors_of(*db, u as int, dependency_names(*db, u as int).len()),
        forall|k: int| 0 <= k < r@.len() ==> (#[trigger] r@[k]) < db.ast.tops@.len(),
        forall|k: int| 0 <= k < r@.len() ==> depends_on(*db, u as int, (#[trigger] r@[k]) as int),
        forall|v: int|
            depends_on(*db, u as int, v) ==> 0 <= v < db.ast.tops@.len() && r@.contains(
                v as usize,
            ),
{
    let mut out: Vec<usize> = Vec::new();
    let is_class = match &db.ast.tops[u] {
        Top::Class(_) => true,
        _ => false,
    };
    if !is_class {
        return out;
    }
    let deps = match db.types.class_dependencies.get(&u) {
        Some(d) => d,
        None => {
            return out;
        },
    };
    let ghost names = dependency_names(*db, u as int);
    let total = db.ast.tops.len();
    let mut i: usize = 0;
    while i < deps.len()
        invariant
            i <= deps.len(),
            total == db.ast.tops@.len(),
            names == dependency_names(*db, u as int),
            names == string_views(deps@),
            out@ == successors_of(*db, u as int, i as nat),
            forall|k: int| 0 <= k < out@.len() ==> (#[trigger] out@[k]) < db.ast.tops@.len(),
            forall|k: int|
                0 <= k < out@.len() ==> depends_on(*db, u as int, (#[trigger] out@[k]) as int),
            forall|j: int|
                0 <= j < i ==> match class_named(db.ast.tops@, #[trigger] names[j]) {
                    Some(v) => 0 <= v && out@.contains(v as usize),
                    None => true,
                },
        decreases deps.len() - i,
    {
        proof {
            assert(names[i as int] == deps@[i as int]@);
        }
        let ghost before = out@;
        match db.find_type_by_str(deps[i].as_str()) {
            Some(TypeWalker::Class(w)) => {
                let target = w.id.0;
                out.push(target);
                proof {
                    assert(class_named(db.ast.tops@, names[i as int]) == Some(target as int));
                    assert(out@[before.len() as int] == target);
                    assert forall|j: int| 0 <= j < i + 1 implies match class_named(
                        db.ast.tops@,
                        #[trigger] names[j],
                    ) {
                        Some(v) => 0 <= v && out@.contains(v as usize),
                        None => true,
                    } by {
                        if j < i {
                            match class_named(db.ast.tops@, names[j]) {
                                Some(v) => {
                                    assert(before.contains(v as usize));
                                    let w = choose|w: int|
                                        0 <= w < before.len() && before[w] == v as usize;
                                    assert(out@[w] == v as usize);
                                },
                                None => {},
                            }
                        }
                    }
                }
            },
            _ => {},
        }
        i += 1;
    }
    proof {
        assert forall|v: int| depends_on(*db, u as int, v) implies 0 <= v < db.ast.tops@.len()
            && out@.contains(v as usize) by {
            let k = choose|k: int|
                0 <= k < names.len() && class_named(db.ast.tops@, #[trigger] names[k]) == Some(v);
            assert(class_named(db.ast.tops@, names[k]) == Some(v));
            crate::parser_database::lemma_lookup(db.ast.tops@, names[k], db.ast.tops@.len());
        }
    }
    out
}

/// The graph of the dependencies among the classes.
fn dependency_graph(db: &ParserDatabase) -> (adj: Vec<Vec<usize>>)
    ensures
        graph_of(*db, adj@),
{
    let mut adj: Vec<Vec<usize>> = Vec::new();
    let total = db.ast.tops.len();
    let mut u: usize = 0;
    while u < total
        invariant
            u <= total,
            total == db.ast.tops@.len(),
            adj@.len() == u,
            forall|a: int|
                0 <= a < u ==> (#[trigger] adj@[a])@ == successors_of(
                    *db,
                    a,
                    dependency_names(*db, a).len(),
                ),
            forall|a: int, k: int|
                0 <= a < u && 0 <= k < adj@[a]@.len() ==> (#[trigger] adj@[a]@[k]) < total,
            forall|a: int, k: int|
                0 <= a < u && 0 <= k < adj@[a]@.len() ==> depends_on(
                    *db,
                    a,
                    (#[trigger] adj@[a]@[k]) as int,
                ),
            forall|a: int, v: int|
                0 <= a < u && #[trigger] depends_on(*db, a, v) ==> 0 <= v < total
                    && adj@[a]@.contains(v as usize),
        decreases total - u,
    {
        let next = successors(db, u);
        adj.push(next);
        u += 1;
    }
    proof {
        assert(list_views(adj@) =~= dependency_lists(*db));
        assert forall|a: int, v: int| 0 <= a < adj@.len() implies (#[trigger] edge(adj@, a, v)
            <==> depends_on(*db, a, v)) by {
            if edge(adj@, a, v) {
                let k = choose|k: int| 0 <= k < adj@[a]@.len() && #[trigger] adj@[a]@[k] == v;
                assert(depends_on(*db, a, adj@[a]@[k] as int));
            }
            if depends_on(*db, a, v) {
                assert(adj@[a]@.contains(v as usize));
                let k = choose|k: int| 0 <= k < adj@[a]@.len() && adj@[a]@[k] == v as usize;
                assert(adj@[a]@[k] == v);
            }
        }
    }
    adj
}

/// A cycle that is turned is a cycle.
pub proof fn lemma_turned_is_cycle(adj: Seq<Vec<usize>>, c: Seq<usize>, m: int)
    requires
        is_cycle(adj, c),
        0 <= m < c.len(),
    ensures
        is_cycle(adj, turned(c, m)),
{
    let r = turned(c, m);
    let n = c.len() as int;
    assert(r.len() == n);
    assert forall|k: int| 0 <= k && k + 1 < r.len() implies edge(
        adj,
        (#[trigger] r[k]) as int,
        r[k + 1] as int,
    ) by {
        if k + 1 < n - m {
            assert(r[k] == c[m + k] && r[k + 1] == c[m + k + 1]);
            assert(edge(adj, c[m + k] as int, c[m + k + 1] as int));
        } else if k == n - m - 1 {
            assert(r[k] == c[n - 1] && r[k + 1] == c[0]);
        } else {
            assert(r[k] == c[k - (n - m)] && r[k + 1] == c[k - (n - m) + 1]);
            assert(edge(adj, c[k - (n - m)] as int, c[k - (n - m) + 1] as int));
        }
    }
    if m == 0 {
        assert(r =~= c);
    } else {
        assert(r[0] == c[m]);
        assert(r.last() == c[m - 1]);
        assert(edge(adj, c[m - 1] as int, c[m] as int));
    }
}

/// Turns a cycle so that the member with the smallest name comes first.
fn normalize(db: &ParserDatabase, c: &Vec<usize>) -> (r: Vec<usize>)
    requires
        c@.len() > 0,
        forall|k: int| 0 <= k < c@.len() ==> (#[trigger] c@[k]) < db.ast.tops@.len(),
    ensures
        r@ == normalized(db.ast.tops@, c@),
        exists|m: int| 0 <= m < c@.len() && r@ == turned(c@, m),
        is_normalized(db.ast.tops@, r@),
        forall|k: int| 0 <= k < r@.len() ==> (#[trigger] r@[k]) < db.ast.tops@.len(),
{
    let ghost tops = db.ast.tops@;
    let ghost names = member_names(tops, c@);
    let mut best: usize = 0;
    let mut best_name = to_chars(db.ast.tops[c[0]].name());
    let mut i: usize = 1;
    proof {
        crate::text::lemma_lex_lt_irreflexive(names[0]);
    }
    while i < c.len()
        invariant
            1 <= i <= c.len(),
            best < i,
            tops == db.ast.tops@,
            names == member_names(tops, c@),
            forall|k: int| 0 <= k < c@.len() ==> (#[trigger] c@[k]) < tops.len(),
            best_name@ == names[best as int],
            best == smallest(names, i as nat),
            forall|k: int| 0 <= k < i ==> !lex_lt(#[trigger] names[k], names[best as int]),
        decreases c.len() - i,
    {
        let name = to_chars(db.ast.tops[c[i]].name());
        proof {
            assert(name@ == names[i as int]);
        }
        if chars_lt(&name, &best_name) {
            proof {
                assert forall|k: int| 0 <= k < i + 1 implies !lex_lt(
                    #[trigger] names[k],
                    names[i as int],
                ) by {
                    if k < i {
                        if lex_lt(names[k], names[i as int]) {
                            crate::text::lemma_lex_lt_transitive(
                                names[k],
                                names[i as int],
                                names[best as int],
                            );
                        }
                    } else {
                        crate::text::lemma_lex_lt_irreflexive(names[i as int]);
                    }
                }
            }
            best = i;
            best_name = name;
        }
        i += 1;
    }
    let mut out: Vec<usize> = Vec::new();
    let mut k: usize = best;
    while k < c.len()
        invariant
            best <= k <= c.len(),
            out@ == c@.subrange(best as int, k as int),
        decreases c.len() - k,
    {
        out.push(c[k]);
        proof {
            assert(c@.subrange(best as int, k + 1) =~= c@.subrange(best as int, k as int).push(
                c@[k as int],
            ));
        }
        k += 1;
    }
    let mut j: usize = 0;
    while j < best
        invariant
            j <= best < c.len(),
            out@ == c@.subrange(best as int, c@.len() as int) + c@.subrange(0, j as int),
        decreases best - j,
    {
        out.push(c[j]);
        proof {
            assert(c@.subrange(0, j + 1) =~= c@.subrange(0, j as int).push(c@[j as int]));
            assert(out@ =~= c@.subrange(best as int, c@.len() as int) + c@.subrange(0, j + 1));
        }
        j += 1;
    }
    proof {
        assert(out@ == turned(c@, best as int));
        let turned_names = member_names(tops, out@);
        assert(turned_names[0] == names[best as int]);
        assert forall|q: int| 0 <= q < out@.len() implies !lex_lt(
            (#[trigger] member_names(tops, out@)[q]),
            member_names(tops, out@)[0],
        ) by {
            if q < c@.len() - best {
                assert(out@[q] == c@[best + q]);
                assert(turned_names[q] == names[best + q]);
            } else {
                assert(out@[q] == c@[q - (c@.len() - best)]);
                assert(turned_names[q] == names[q - (c@.len() - best)]);
            }
        }
    }
    out
}

/// Whether `c` is among `kept`.
fn holds_cycle(kept: &Vec<Vec<usize>>, c: &Vec<usize>) -> (r: bool)
    ensures
        r == exists|i: int| 0 <= i < kept@.len() && (#[trigger] kept@[i])@ == c@,
        r == list_views(kept@).contains(c@),
{
    proof {
        let views = list_views(kept@);
        if views.contains(c@) {
            let i = choose|i: int| 0 <= i < views.len() && views[i] == c@;
            assert(kept@[i]@ == c@);
        }
        if exists|i: int| 0 <= i < kept@.len() && (#[trigger] kept@[i])@ == c@ {
            let i = choose|i: int| 0 <= i < kept@.len() && (#[trigger] kept@[i])@ == c@;
            assert(views[i] == c@);
        }
    }
    let mut i: usize = 0;
    while i < kept.len()
        invariant
            i <= kept.len(),
            forall|j: int| 0 <= j < i ==> (#[trigger] kept@[j])@ != c@,
        decreases kept.len() - i,
    {
        let other = &kept[i];
        if other.len() == c.len() {
            let mut k: usize = 0;
            let mut same = true;
            while k < c.len()
                invariant
                    k <= c.len(),
                    other.len() == c.len(),
                    same == (forall|q: int| 0 <= q < k ==> other@[q] == c@[q]),
                decreases c.len() - k,
            {
                if other[k] != c[k] {
                    same = false;
                }
                k += 1;
            }
            if same {
                proof {
                    assert(other@ =~= c@);
                    assert(list_views(kept@)[i as int] == c@);
                }
                return true;
            }
            proof {
                if other@ == c@ {
                    assert(forall|q: int| 0 <= q < c@.len() ==> other@[q] == c@[q]);
                }
            }
        }
        i += 1;
    }
    false
}

/// The names of the declarations at the positions of `c`.
fn names_of(db: &ParserDatabase, c: &Vec<usize>) -> (r: Vec<String>)
    requires
        forall|k: int| 0 <= k < c@.len() ==> (#[trigger] c@[k]) < db.ast.tops@.len(),
    ensures
        string_views(r@) == member_names(db.ast.tops@, c@),
{
    let mut out: Vec<String> = Vec::new();
    let mut i: usize = 0;
    while i < c.len()
        invariant
            i <= c.len(),
            forall|k: int| 0 <= k < c@.len() ==> (#[trigger] c@[k]) < db.ast.tops@.len(),
            out@.len() == i,
            forall|k: int|
                0 <= k < i ==> (#[trigger] out@[k])@ == db.ast.tops@[c@[k] as int].name_spec(),
        decreases c.len() - i,
    {
        out.push(db.ast.tops[c[i]].name().to_string());
        i += 1;
    }
    proof {
        assert(string_views(out@) =~= member_names(db.ast.tops@, c@));
    }
    out
}

/// Searches the dependencies of the classes for cycles and records an
/// error for each cycle found. A cycle is reported once, turned so that the
/// member with the smallest name comes first. Gives the cycles reported, as
/// positions of declarations.
pub fn validate_cycles(db: &ParserDatabase, diagnostics: &mut Diagnostics) -> (reported: Vec<
    Vec<usize>,
>)
    ensures
        list_views(reported@) == cycle_report(*db),
        final(diagnostics)@ == old(diagnostics)@ + cycle_entries(
            db.ast.tops@,
            cycle_report(*db),
            cycle_report(*db).len(),
        ),
        forall|i: int|
            0 <= i < reported@.len() ==> is_dependency_cycle(*db, (#[trigger] reported@[i])@)
                && is_normalized(db.ast.tops@, reported@[i]@),
        forall|i: int, j: int|
            0 <= i < j < reported@.len() ==> (#[trigger] reported@[i])@ != (
            #[trigger] reported@[j])@,
        reported@.len() == 0 <==> no_dependency_cycle(*db),
{
    let ghost start = diagnostics@;
    let ghost tops = db.ast.tops@;
    let adj = dependency_graph(db);
    let found = find_cycles(&adj);
    let mut reported: Vec<Vec<usize>> = Vec::new();
    let mut i: usize = 0;
    let ghost all = list_views(found@);
    proof {
        assert(diagnostics@ =~= start + cycle_entries(tops, list_views(reported@), 0));
        assert(list_views(reported@) =~= report_of(tops, all, 0));
    }
    while i < found.len()
        invariant
            i <= found.len(),
            tops == db.ast.tops@,
            graph_of(*db, adj@),
            all == list_views(found@),
            all == found_cycles(dependency_lists(*db)),
            list_views(reported@) == report_of(tops, all, i as nat),
            forall|q: int| 0 <= q < found@.len() ==> is_cycle(adj@, (#[trigger] found@[q])@),
            diagnostics@ == start + cycle_entries(
                tops,
                list_views(reported@),
                reported@.len(),
            ),
            forall|q: int|
                0 <= q < reported@.len() ==> is_cycle(adj@, (#[trigger] reported@[q])@)
                    && is_normalized(tops, reported@[q]@) && forall|k: int|
                    0 <= k < reported@[q]@.len() ==> (#[trigger] reported@[q]@[k]) < tops.len(),
            forall|a: int, b: int|
                0 <= a < b < reported@.len() ==> (#[trigger] reported@[a])@ != (
                #[trigger] reported@[b])@,
            i > 0 ==> reported@.len() > 0,
        decreases found.len() - i,
    {
        let cycle = &found[i];
        proof {
            assert(all[i as int] == cycle@);
            assert(is_cycle(adj@, cycle@));
            assert forall|k: int| 0 <= k < cycle@.len() implies (#[trigger] cycle@[k])
                < tops.len() by {
                if k + 1 < cycle@.len() {
                    assert(edge(adj@, cycle@[k] as int, cycle@[k + 1] as int));
                } else {
                    assert(edge(adj@, cycle@.last() as int, cycle@[0] as int));
                }
            }
        }
        let turned_cycle = normalize(db, cycle);
        proof {
            let m = choose|m: int| 0 <= m < cycle@.len() && turned_cycle@ == turned(cycle@, m);
            lemma_turned_is_cycle(adj@, cycle@, m);
        }
        if !holds_cycle(&reported, &turned_cycle) {
            let names = names_of(db, &turned_cycle);
            let message = concat3(
                "These classes form a dependency cycle: ",
                join(&names, " -> ").as_str(),
                "",
            );
            let span = db.ast.tops[turned_cycle[0]].span();
            let ghost before = diagnostics@;
            let ghost kept = reported@;
            diagnostics.push_error(
                DatamodelError::with_names(ErrorKind::Cycle, message, names, span),
            );
            reported.push(turned_cycle);
            proof {
                let entry = cycle_entry(tops, turned_cycle@);
                assert("These classes form a dependency cycle: "@ + joined(
                    member_names(tops, turned_cycle@),
                    " -> "@,
                ) + ""@ =~= "These classes form a dependency cycle: "@ + joined(
                    member_names(tops, turned_cycle@),
                    " -> "@,
                )) by {
                    reveal_strlit("");
                }
                assert(diagnostics@ == before.push(entry));
                assert(list_views(reported@) =~= list_views(kept).push(turned_cycle@));
                lemma_entries_of_prefix(
                    tops,
                    list_views(reported@),
                    list_views(kept),
                    kept.len(),
                );
                assert(diagnostics@ =~= start + cycle_entries(
                    tops,
                    list_views(reported@),
                    reported@.len(),
                ));
                assert forall|a: int, b: int| 0 <= a < b < reported@.len() implies (
                #[trigger] reported@[a])@ != (#[trigger] reported@[b])@ by {
                    if b < kept.len() {
                        assert(kept[a]@ != kept[b]@);
                    } else {
                        assert(kept[a]@ != turned_cycle@);
                    }
                }
            }
        }
        i += 1;
    }
    proof {
        assert forall|q: int| 0 <= q < reported@.len() implies is_dependency_cycle(
            *db,
            (#[trigger] reported@[q])@,
        ) && is_normalized(tops, reported@[q]@) by {
            lemma_cycle_of_graph(*db, adj@, reported@[q]@);
        }
        if reported@.len() == 0 {
            assert(found@.len() == 0);
            assert forall|c: Seq<usize>| !is_dependency_cycle(*db, c) by {
                if is_dependency_cycle(*db, c) {
                    assert forall|k: int| 0 <= k < c.len() implies (#[trigger] c[k])
                        < adj@.len() by {
                        lemma_cycle_members(*db, c, k);
                    }
                    lemma_cycle_of_graph(*db, adj@, c);
                }
            }
        } else {
            assert(is_dependency_cycle(*db, reported@[0]@));
        }
    }
    reported
}

/// The errors for the first cycles of a list do not depend on the cycles
/// behind them.
proof fn lemma_entries_of_prefix(
    tops: Seq<Top>,
    all: Seq<Seq<usize>>,
    head: Seq<Seq<usize>>,
    n: nat,
)
    requires
        n <= head.len() <= all.len(),
        forall|i: int| 0 <= i < head.len() ==> all[i] == head[i],
    ensures
        cycle_entries(tops, all, n) == cycle_entries(tops, head, n),
    decreases n,
{
    if n > 0 {
        lemma_entries_of_prefix(tops, all, head, (n - 1) as nat);
    }
}

/// A class that depends on itself is a cycle of its own, whatever the
/// reference is wrapped in where it is written.
pub proof fn lemma_self_reference_is_cycle(db: ParserDatabase, u: usize)
    requires
        depends_on(db, u as int, u as int),
    ensures
        is_dependency_cycle(db, seq![u]),
        !no_dependency_cycle(db),
{
    assert(seq![u].last() == u);
    assert(is_dependency_cycle(db, seq![u]));
}

} // verus!
