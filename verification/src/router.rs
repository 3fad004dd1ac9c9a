//! Composition: tables mounted under a prefix of literal segments, and
//! several mounted tables merged into one.
use vstd::prelude::*;
use crate::pattern::{
    alike, all_literal, first_bound, same_shape, segment_text, spec_compile, spec_match,
    CompileError, PathPattern, SegmentModel,
};
use crate::table::{
    conflict_free, conflicts, copy_bindings, spec_check, BuildError, BuildErrorModel, RouteEntry,
    RouteEntryModel, RouteTable,
};

verus! {

/// What reading a mount prefix gives: the segments of the prefix, which
/// compiles like a template and may hold literal segments only. The first
/// segment that is not a literal is at fault.
pub open spec fn spec_prefix(prefix: Seq<char>) -> Result<Seq<SegmentModel>, CompileError> {
    match spec_compile(prefix) {
        Err(error) => Err(error),
        Ok(segments) => match first_bound(segments, 0) {
            Some(i) => Err(CompileError::InvalidSegment { position: i as usize }),
            None => Ok(segments),
        },
    }
}

/// A route with the segments of a prefix in front of its template.
pub open spec fn mounted(prefix: Seq<SegmentModel>, entry: RouteEntryModel) -> RouteEntryModel {
    RouteEntryModel {
        verb: entry.verb,
        pattern: prefix + entry.pattern,
        handler: entry.handler,
        bindings: entry.bindings,
        returns: entry.returns,
    }
}

/// The routes, each with the segments of a prefix in front of its template.
pub open spec fn mounted_all(prefix: Seq<SegmentModel>, entries: Seq<RouteEntryModel>) -> Seq<
    RouteEntryModel,
> {
    Seq::new(entries.len(), |i: int| mounted(prefix, entries[i]))
}

/// What mounting a table under a prefix gives.
pub open spec fn spec_mount(prefix: Seq<char>, entries: Seq<RouteEntryModel>) -> Result<
    Seq<RouteEntryModel>,
    CompileError,
> {
    match spec_prefix(prefix) {
        Err(error) => Err(error),
        Ok(segments) => Ok(mounted_all(segments, entries)),
    }
}

/// The first table at or after `from` whose prefix cannot be read, with the
/// fault of the prefix.
pub open spec fn first_bad_prefix(tables: Seq<(Seq<char>, Seq<RouteEntryModel>)>, from: int)
    -> Option<(int, CompileError)>
    decreases tables.len() - from,
{
    if from < 0 || from >= tables.len() {
        None
    } else {
        match spec_prefix(tables[from].0) {
            Err(error) => Some((from, error)),
            Ok(_) => first_bad_prefix(tables, from + 1),
        }
    }
}

/// The routes of all the tables, each under the prefix of its table, in the
/// order of the tables and, within a table, of declaration.
pub open spec fn gathered(tables: Seq<(Seq<char>, Seq<RouteEntryModel>)>) -> Seq<RouteEntryModel>
    decreases tables.len(),
{
    if tables.len() == 0 {
        Seq::<RouteEntryModel>::empty()
    } else {
        gathered(tables.drop_last()) + mounted_all(
            spec_prefix(tables.last().0)->Ok_0,
            tables.last().1,
        )
    }
}

/// What merging tables gives. The prefixes are read in order, and the first
/// that cannot be read ends the merge. Then the routes of all the tables are
/// checked for conflicts as the routes of one table are.
pub open spec fn spec_merge(tables: Seq<(Seq<char>, Seq<RouteEntryModel>)>) -> Result<
    Seq<RouteEntryModel>,
    BuildErrorModel,
> {
    match first_bad_prefix(tables, 0) {
        Some((index, error)) => Err(BuildErrorModel::InvalidTemplate { index, error }),
        None => spec_check(gathered(tables)),
    }
}

/// Two routes under one prefix conflict exactly when they conflict without it.
pub proof fn lemma_mounted_conflicts(
    prefix: Seq<SegmentModel>,
    a: RouteEntryModel,
    b: RouteEntryModel,
)
    ensures
        conflicts(mounted(prefix, a), mounted(prefix, b)) <==> conflicts(a, b),
{
    let left = prefix + a.pattern;
    let right = prefix + b.pattern;
    if same_shape(left, right) {
        assert forall|i: int| 0 <= i < a.pattern.len() implies alike(
            #[trigger] a.pattern[i],
            b.pattern[i],
        ) by {
            assert(alike(left[prefix.len() + i], right[prefix.len() + i]));
        }
    }
    if same_shape(a.pattern, b.pattern) {
        assert forall|i: int| 0 <= i < left.len() implies alike(#[trigger] left[i], right[i]) by {
            if i >= prefix.len() {
                assert(alike(a.pattern[i - prefix.len()], b.pattern[i - prefix.len()]));
            } else {
                assert(left[i] == right[i]);
            }
        }
    }
}

/// Mounting a table of which no two routes conflict gives such a table.
pub proof fn lemma_mount_keeps_conflict_free(
    prefix: Seq<SegmentModel>,
    entries: Seq<RouteEntryModel>,
)
    requires
        conflict_free(entries),
    ensures
        conflict_free(mounted_all(prefix, entries)),
{
    let all = mounted_all(prefix, entries);
    assert forall|i: int, j: int| 0 <= i < j < all.len() implies !conflicts(all[i], all[j]) by {
        lemma_mounted_conflicts(prefix, entries[i], entries[j]);
    }
}

/// A mounted template matches a path exactly when the path starts with the
/// segments of the prefix and the template matches what follows them; and
/// it then binds what the template binds.
pub proof fn lemma_mounted_match(
    prefix: Seq<SegmentModel>,
    pattern: Seq<SegmentModel>,
    path: Seq<Seq<char>>,
)
    requires
        all_literal(prefix),
    ensures
        spec_match(
            prefix + pattern,
            prefix.map_values(|segment: SegmentModel| segment_text(segment)) + path,
        ) == spec_match(pattern, path),
    decreases prefix.len(),
{
    let texts = prefix.map_values(|segment: SegmentModel| segment_text(segment));
    if prefix.len() == 0 {
        assert(prefix + pattern == pattern);
        assert(texts + path == path);
    } else {
        let rest = prefix.skip(1);
        assert(prefix[0] is Literal);
        assert(all_literal(rest)) by {
            assert forall|i: int| 0 <= i < rest.len() implies #[trigger] rest[i] is Literal by {
                assert(rest[i] == prefix[i + 1]);
            }
        }
        lemma_mounted_match(rest, pattern, path);
        assert((prefix + pattern).skip(1) == rest + pattern);
        assert((texts + path).skip(1) == rest.map_values(
            |segment: SegmentModel| segment_text(segment),
        ) + path);
        assert((texts + path)[0] == segment_text(prefix[0]));
    }
}

/// Reads a mount prefix.
pub fn read_prefix(prefix: &str) -> (result: Result<PathPattern, CompileError>)
    ensures
        result matches Ok(pattern) ==> spec_prefix(prefix@) == Ok::<
            Seq<SegmentModel>,
            CompileError,
        >(pattern@) && all_literal(pattern@),
        result matches Err(error) ==> spec_prefix(prefix@) == Err::<
            Seq<SegmentModel>,
            CompileError,
        >(error),
{
    let pattern = match PathPattern::compile(prefix) {
        Ok(pattern) => pattern,
        Err(error) => {
            return Err(error);
        },
    };
    match pattern.first_binding() {
        Some(position) => Err(CompileError::InvalidSegment { position }),
        None => Ok(pattern),
    }
}

/// Adds to `out` the routes of `entries`, each under the prefix.
fn mount_into(prefix: &PathPattern, entries: &Vec<RouteEntry>, out: &mut Vec<RouteEntry>)
    requires
        all_literal(prefix@),
    ensures
        final(out).deep_view() == old(out).deep_view() + mounted_all(
            prefix@,
            entries.deep_view(),
        ),
{
    let ghost start = out.deep_view();
    let ghost target = mounted_all(prefix@, entries.deep_view());
    let mut i: usize = 0;
    assert(start + target.take(0) == start);
    while i < entries.len()
        invariant
            i <= entries.len(),
            all_literal(prefix@),
            target == mounted_all(prefix@, entries.deep_view()),
            out.deep_view() == start + target.take(i as int),
        decreases entries.len() - i,
    {
        let ghost before = out.deep_view();
        let entry = &entries[i];
        let route = RouteEntry {
            verb: entry.verb,
            pattern: entry.pattern.prepend(prefix),
            handler: entry.handler,
            bindings: copy_bindings(&entry.bindings),
            returns: entry.returns,
        };
        proof {
            assert(entries.deep_view()[i as int] == entry@);
            assert(route@ == target[i as int]);
        }
        out.push(route);
        proof {
            assert(out.deep_view() == before.push(target[i as int]));
            assert(start + target.take(i + 1) == (start + target.take(i as int)).push(
                target[i as int],
            ));
        }
        i = i + 1;
    }
    assert(target.take(i as int) == target);
}

/// Mounts a table under a prefix: the literal segments of the prefix come
/// in front of every template of the table.
pub fn mount(prefix: &str, table: &RouteTable) -> (result: Result<RouteTable, CompileError>)
    ensures
        result matches Ok(under) ==> spec_mount(prefix@, table@) == Ok::<
            Seq<RouteEntryModel>,
            CompileError,
        >(under@),
        result matches Err(error) ==> spec_mount(prefix@, table@) == Err::<
            Seq<RouteEntryModel>,
            CompileError,
        >(error),
{
    let pattern = match read_prefix(prefix) {
        Ok(pattern) => pattern,
        Err(error) => {
            return Err(error);
        },
    };
    let entries = table.entries();
    let mut routes: Vec<RouteEntry> = Vec::new();
    assert(routes.deep_view() == Seq::<RouteEntryModel>::empty());
    mount_into(&pattern, entries, &mut routes);
    proof {
        assert(routes.deep_view() == mounted_all(pattern@, table@));
        lemma_mount_keeps_conflict_free(pattern@, table@);
    }
    Ok(RouteTable::assemble(routes))
}

/// Merges tables, each mounted under its prefix, into one table.
pub fn merge(tables: &Vec<(String, RouteTable)>) -> (result: Result<RouteTable, BuildError>)
    ensures
        result matches Ok(table) ==> spec_merge(tables.deep_view()) == Ok::<
            Seq<RouteEntryModel>,
            BuildErrorModel,
        >(table@),
        result matches Err(error) ==> spec_merge(tables.deep_view()) == Err::<
            Seq<RouteEntryModel>,
            BuildErrorModel,
        >(error@),
{
    let ghost given = tables.deep_view();
    let mut routes: Vec<RouteEntry> = Vec::new();
    let mut k: usize = 0;
    assert(given.take(0) == Seq::<(Seq<char>, Seq<RouteEntryModel>)>::empty());
    assert(routes.deep_view() == Seq::<RouteEntryModel>::empty());
    while k < tables.len()
        invariant
            k <= tables.len(),
            given == tables.deep_view(),
            first_bad_prefix(given, 0) == first_bad_prefix(given, k as int),
            routes.deep_view() == gathered(given.take(k as int)),
        decreases tables.len() - k,
    {
        let pair = &tables[k];
        proof {
            assert(given[k as int] == (pair.0@, pair.1@));
            assert(given.take(k + 1).drop_last() == given.take(k as int));
            assert(given.take(k + 1).last() == given[k as int]);
        }
        let pattern = match read_prefix(pair.0.as_str()) {
            Ok(pattern) => pattern,
            Err(error) => {
                return Err(BuildError::InvalidTemplate { index: k, error });
            },
        };
        mount_into(&pattern, pair.1.entries(), &mut routes);
        k = k + 1;
    }
    assert(given.take(k as int) == given);
    RouteTable::from_entries(routes)
}

} // verus!
