//! The filter/sort engine.
//!
//! Given the collection, an optional project tag and an optional context
//! tag, the engine yields the positions of the records that pass both
//! filters, in collection order; with sorting on, unfinished records come
//! first and each status group keeps its relative order (a stable sort
//! keyed solely on the completion flag). Positions into the collection are
//! the record identifiers; they stay valid only until the next structural
//! mutation.

use vstd::prelude::*;

use crate::strorder::str_eq;
use crate::task::task_views;
use crate::task::Task;
use crate::task::TaskView;

verus! {

/// An optional filter tag, as text.
pub open spec fn opt_text(o: Option<String>) -> Option<Seq<char>> {
    match o {
        Some(s) => Some(s@),
        None => None,
    }
}

/// A record passes when each present filter tag occurs in the matching
/// tag dimension; an absent filter passes everything.
pub open spec fn task_passes(t: TaskView, pf: Option<Seq<char>>, cf: Option<Seq<char>>) -> bool {
    &&& match pf {
        Some(p) => t.projects.contains(p),
        None => true,
    }
    &&& match cf {
        Some(c) => t.contexts.contains(c),
        None => true,
    }
}

/// The positions below `n` whose records pass the filters, ascending.
pub open spec fn passing_ids(
    tasks: Seq<TaskView>,
    pf: Option<Seq<char>>,
    cf: Option<Seq<char>>,
    n: int,
) -> Seq<usize>
    decreases n,
{
    if n <= 0 {
        Seq::empty()
    } else {
        let rest = passing_ids(tasks, pf, cf, n - 1);
        if task_passes(tasks[n - 1], pf, cf) {
            rest.push((n - 1) as usize)
        } else {
            rest
        }
    }
}

/// The positions of `ids` whose records have the given completion flag,
/// keeping their order.
pub open spec fn by_status(ids: Seq<usize>, tasks: Seq<TaskView>, finished: bool) -> Seq<usize>
    decreases ids.len(),
{
    if ids.len() == 0 {
        Seq::empty()
    } else {
        let rest = by_status(ids.drop_last(), tasks, finished);
        if tasks[ids.last() as int].finished == finished {
            rest.push(ids.last())
        } else {
            rest
        }
    }
}

/// What the engine displays: the passing positions, in collection order,
/// stably regrouped by completion status when sorting is on.
pub open spec fn resolve_spec(
    tasks: Seq<TaskView>,
    pf: Option<Seq<char>>,
    cf: Option<Seq<char>>,
    sort_enabled: bool,
) -> Seq<usize> {
    let ids = passing_ids(tasks, pf, cf, tasks.len() as int);
    if sort_enabled {
        by_status(ids, tasks, false) + by_status(ids, tasks, true)
    } else {
        ids
    }
}

/// Membership in a sequence extended by one element at the back.
proof fn lemma_push_contains<A>(l: Seq<A>, x: A, y: A)
    ensures
        l.push(x).contains(y) <==> (l.contains(y) || y == x),
{
    if l.push(x).contains(y) {
        let i = choose|i: int| 0 <= i < l.push(x).len() && l.push(x)[i] == y;
        if i < l.len() {
            assert(l[i] == y);
        }
    }
    if y == x {
        assert(l.push(x)[l.len() as int] == y);
    }
    if l.contains(y) {
        let i = choose|i: int| 0 <= i < l.len() && l[i] == y;
        assert(l.push(x)[i] == y);
    }
}

/// Membership in a concatenation.
proof fn lemma_concat_contains<A>(a: Seq<A>, b: Seq<A>, y: A)
    ensures
        (a + b).contains(y) <==> (a.contains(y) || b.contains(y)),
{
    if (a + b).contains(y) {
        let i = choose|i: int| 0 <= i < (a + b).len() && (a + b)[i] == y;
        if i < a.len() {
            assert(a[i] == y);
        } else {
            assert(b[i - a.len()] == y);
        }
    }
    if a.contains(y) {
        let i = choose|i: int| 0 <= i < a.len() && a[i] == y;
        assert((a + b)[i] == y);
    }
    if b.contains(y) {
        let i = choose|i: int| 0 <= i < b.len() && b[i] == y;
        assert((a + b)[i + a.len()] == y);
    }
}

/// The passing positions are in range, ascending, pass the filters, and
/// miss no passing record.
pub proof fn lemma_passing_ids(
    tasks: Seq<TaskView>,
    pf: Option<Seq<char>>,
    cf: Option<Seq<char>>,
    n: int,
)
    requires
        0 <= n <= tasks.len(),
        tasks.len() <= usize::MAX,
    ensures
        forall|k: int|
            0 <= k < passing_ids(tasks, pf, cf, n).len() ==> #[trigger] passing_ids(
                tasks,
                pf,
                cf,
                n,
            )[k] < n && task_passes(tasks[passing_ids(tasks, pf, cf, n)[k] as int], pf, cf),
        forall|k1: int, k2: int|
            0 <= k1 < k2 < passing_ids(tasks, pf, cf, n).len() ==> #[trigger] passing_ids(
                tasks,
                pf,
                cf,
                n,
            )[k1] < #[trigger] passing_ids(tasks, pf, cf, n)[k2],
        forall|e: int|
            0 <= e < n && task_passes(#[trigger] tasks[e], pf, cf) ==> passing_ids(
                tasks,
                pf,
                cf,
                n,
            ).contains(e as usize),
    decreases n,
{
    if n > 0 {
        lemma_passing_ids(tasks, pf, cf, n - 1);
        let rest = passing_ids(tasks, pf, cf, n - 1);
        if task_passes(tasks[n - 1], pf, cf) {
            assert forall|e: int|
                0 <= e < n && task_passes(#[trigger] tasks[e], pf, cf) implies passing_ids(
                tasks,
                pf,
                cf,
                n,
            ).contains(e as usize) by {
                lemma_push_contains(rest, (n - 1) as usize, e as usize);
            }
        }
    }
}

/// The status groups hold exactly the positions of `ids` with the given
/// flag, ascending when `ids` is ascending.
proof fn lemma_by_status(ids: Seq<usize>, tasks: Seq<TaskView>, finished: bool)
    requires
        forall|k1: int, k2: int| 0 <= k1 < k2 < ids.len() ==> ids[k1] < ids[k2],
    ensures
        forall|k: int|
            0 <= k < by_status(ids, tasks, finished).len() ==> tasks[#[trigger] by_status(
                ids,
                tasks,
                finished,
            )[k] as int].finished == finished && ids.contains(by_status(ids, tasks, finished)[k]),
        forall|k1: int, k2: int|
            0 <= k1 < k2 < by_status(ids, tasks, finished).len() ==> #[trigger] by_status(
                ids,
                tasks,
                finished,
            )[k1] < #[trigger] by_status(ids, tasks, finished)[k2],
        forall|e: usize|
            ids.contains(e) && tasks[e as int].finished == finished ==> by_status(
                ids,
                tasks,
                finished,
            ).contains(e),
    decreases ids.len(),
{
    if ids.len() > 0 {
        let prefix = ids.drop_last();
        assert forall|k1: int, k2: int| 0 <= k1 < k2 < prefix.len() implies prefix[k1]
            < prefix[k2] by {
            assert(prefix[k1] == ids[k1] && prefix[k2] == ids[k2]);
        }
        lemma_by_status(prefix, tasks, finished);
        let rest = by_status(prefix, tasks, finished);
        let r = by_status(ids, tasks, finished);
        assert forall|k: int| 0 <= k < r.len() implies tasks[#[trigger] r[k] as int].finished
            == finished && ids.contains(r[k]) by {
            if k < rest.len() {
                assert(prefix.contains(rest[k]));
                let i = choose|i: int| 0 <= i < prefix.len() && prefix[i] == rest[k];
                assert(ids[i] == rest[k]);
            } else {
                assert(r[k] == ids.last());
                assert(ids[ids.len() - 1] == ids.last());
            }
        }
        assert forall|k1: int, k2: int| 0 <= k1 < k2 < r.len() implies #[trigger] r[k1]
            < #[trigger] r[k2] by {
            if k2 >= rest.len() {
                assert(r[k2] == ids.last());
                assert(prefix.contains(rest[k1]));
                let i = choose|i: int| 0 <= i < prefix.len() && prefix[i] == rest[k1];
                assert(ids[i] == r[k1]);
                assert(ids[i] < ids[ids.len() - 1]);
            }
        }
        assert forall|e: usize|
            ids.contains(e) && tasks[e as int].finished == finished implies r.contains(e) by {
            let i = choose|i: int| 0 <= i < ids.len() && ids[i] == e;
            if i < ids.len() - 1 {
                assert(prefix[i] == e);
                assert(prefix.contains(e));
                assert(rest.contains(e));
                let k = choose|k: int| 0 <= k < rest.len() && rest[k] == e;
                if tasks[ids.last() as int].finished == finished {
                    assert(rest.push(ids.last())[k] == e);
                }
            } else {
                assert(e == ids.last());
                assert(rest.push(ids.last())[rest.len() as int] == e);
            }
        }
    }
}

/// The resolved view: every position is in range and passes the filters,
/// every passing record appears, and none appears twice.
pub proof fn lemma_resolve_elements(
    tasks: Seq<TaskView>,
    pf: Option<Seq<char>>,
    cf: Option<Seq<char>>,
    sort_enabled: bool,
)
    requires
        tasks.len() <= usize::MAX,
    ensures
        forall|k: int|
            0 <= k < resolve_spec(tasks, pf, cf, sort_enabled).len() ==> #[trigger] resolve_spec(
                tasks,
                pf,
                cf,
                sort_enabled,
            )[k] < tasks.len() && task_passes(
                tasks[resolve_spec(tasks, pf, cf, sort_enabled)[k] as int],
                pf,
                cf,
            ),
        forall|e: int|
            0 <= e < tasks.len() && task_passes(#[trigger] tasks[e], pf, cf) ==> resolve_spec(
                tasks,
                pf,
                cf,
                sort_enabled,
            ).contains(e as usize),
        resolve_spec(tasks, pf, cf, sort_enabled).no_duplicates(),
{
    let ids = passing_ids(tasks, pf, cf, tasks.len() as int);
    let r = resolve_spec(tasks, pf, cf, sort_enabled);
    lemma_passing_ids(tasks, pf, cf, tasks.len() as int);
    if sort_enabled {
        lemma_by_status(ids, tasks, false);
        lemma_by_status(ids, tasks, true);
        let a = by_status(ids, tasks, false);
        let b = by_status(ids, tasks, true);
        assert forall|k: int| 0 <= k < r.len() implies #[trigger] r[k] < tasks.len()
            && task_passes(tasks[r[k] as int], pf, cf) by {
            let e = r[k];
            if k < a.len() {
                assert(e == a[k]);
                assert(ids.contains(e));
            } else {
                assert(e == b[k - a.len()]);
                assert(ids.contains(e));
            }
            let i = choose|i: int| 0 <= i < ids.len() && ids[i] == e;
        }
        assert forall|e: int|
            0 <= e < tasks.len() && task_passes(#[trigger] tasks[e], pf, cf) implies r.contains(
            e as usize,
        ) by {
            assert(ids.contains(e as usize));
            if tasks[e].finished {
                assert(b.contains(e as usize));
            } else {
                assert(a.contains(e as usize));
            }
            lemma_concat_contains(a, b, e as usize);
        }
        assert(r.no_duplicates()) by {
            assert forall|k1: int, k2: int|
                0 <= k1 < r.len() && 0 <= k2 < r.len() && k1 != k2 implies r[k1] != r[k2] by {
                let lo = if k1 < k2 {
                    k1
                } else {
                    k2
                };
                let hi = if k1 < k2 {
                    k2
                } else {
                    k1
                };
                if hi < a.len() {
                    assert(a[lo] < a[hi]);
                } else if lo >= a.len() {
                    assert(b[lo - a.len()] < b[hi - a.len()]);
                } else {
                    assert(tasks[a[lo] as int].finished == false);
                    assert(tasks[b[hi - a.len()] as int].finished == true);
                }
            }
        }
    } else {
        assert forall|k1: int, k2: int|
            0 <= k1 < r.len() && 0 <= k2 < r.len() && k1 != k2 implies r[k1] != r[k2] by {
            if k1 < k2 {
                assert(r[k1] < r[k2]);
            } else {
                assert(r[k2] < r[k1]);
            }
        }
    }
}

/// Filter correctness: with a project filter and no context filter, the
/// resolved view holds exactly the positions of the records carrying the
/// tag, each exactly once.
pub proof fn lemma_filter_correct(tasks: Seq<TaskView>, tag: Seq<char>, sort_enabled: bool)
    requires
        tasks.len() <= usize::MAX,
    ensures
        forall|k: int|
            0 <= k < resolve_spec(tasks, Some(tag), None, sort_enabled).len()
                ==> #[trigger] resolve_spec(tasks, Some(tag), None, sort_enabled)[k] < tasks.len()
                && tasks[resolve_spec(tasks, Some(tag), None, sort_enabled)[k] as int].projects.contains(
                tag,
            ),
        forall|e: int|
            0 <= e < tasks.len() && #[trigger] tasks[e].projects.contains(tag) ==> resolve_spec(
                tasks,
                Some(tag),
                None,
                sort_enabled,
            ).contains(e as usize),
        resolve_spec(tasks, Some(tag), None, sort_enabled).no_duplicates(),
{
    lemma_resolve_elements(tasks, Some(tag), None, sort_enabled);
}

/// Sort stability: with sorting on, no finished record precedes an
/// unfinished one, and records of equal status keep their collection
/// order.
pub proof fn lemma_sort_stable(tasks: Seq<TaskView>, pf: Option<Seq<char>>, cf: Option<Seq<char>>)
    requires
        tasks.len() <= usize::MAX,
    ensures
        forall|k1: int, k2: int|
            0 <= k1 < k2 < resolve_spec(tasks, pf, cf, true).len() && tasks[#[trigger] resolve_spec(
                tasks,
                pf,
                cf,
                true,
            )[k1] as int].finished ==> tasks[#[trigger] resolve_spec(tasks, pf, cf, true)[k2] as int].finished,
        forall|k1: int, k2: int|
            0 <= k1 < k2 < resolve_spec(tasks, pf, cf, true).len()
                && tasks[#[trigger] resolve_spec(tasks, pf, cf, true)[k1] as int].finished
                == tasks[#[trigger] resolve_spec(tasks, pf, cf, true)[k2] as int].finished
                ==> resolve_spec(tasks, pf, cf, true)[k1] < resolve_spec(tasks, pf, cf, true)[k2],
{
    let ids = passing_ids(tasks, pf, cf, tasks.len() as int);
    lemma_passing_ids(tasks, pf, cf, tasks.len() as int);
    lemma_by_status(ids, tasks, false);
    lemma_by_status(ids, tasks, true);
    let a = by_status(ids, tasks, false);
    let b = by_status(ids, tasks, true);
    let r = resolve_spec(tasks, pf, cf, true);
    assert forall|k1: int, k2: int|
        0 <= k1 < k2 < r.len() && tasks[#[trigger] r[k1] as int].finished implies tasks[#[trigger] r[k2] as int].finished by {
        if k1 < a.len() {
            assert(tasks[a[k1] as int].finished == false);
        } else {
            assert(tasks[b[k2 - a.len()] as int].finished == true);
        }
    }
    assert forall|k1: int, k2: int|
        0 <= k1 < k2 < r.len() && tasks[#[trigger] r[k1] as int].finished == tasks[#[trigger] r[k2] as int].finished implies r[k1]
        < r[k2] by {
        if k2 < a.len() {
            assert(a[k1] < a[k2]);
        } else if k1 >= a.len() {
            assert(b[k1 - a.len()] < b[k2 - a.len()]);
        } else {
            assert(tasks[a[k1] as int].finished == false);
            assert(tasks[b[k2 - a.len()] as int].finished == true);
        }
    }
}

/// Whether the tag occurs in a record's tag list.
fn contains_tag(tags: &Vec<String>, tag: &String) -> (r: bool)
    ensures
        r == tags.deep_view().contains(tag@),
{
    let mut i: usize = 0;
    while i < tags.len()
        invariant
            i <= tags.len(),
            forall|j: int| 0 <= j < i ==> tags.deep_view()[j] != tag@,
        decreases tags.len() - i,
    {
        if str_eq(tags[i].as_str(), tag.as_str()) {
            assert(tags.deep_view()[i as int] == tag@);
            return true;
        }
        i += 1;
    }
    false
}

/// Resolves the displayed view: the positions of the records passing the
/// filters, regrouped by status when sorting is on.
pub fn resolve(
    tasks: &Vec<Task>,
    project_filter: &Option<String>,
    context_filter: &Option<String>,
    sort_enabled: bool,
) -> (ids: Vec<usize>)
    ensures
        ids@ == resolve_spec(
            task_views(tasks@),
            opt_text(*project_filter),
            opt_text(*context_filter),
            sort_enabled,
        ),
{
    let ghost views = task_views(tasks@);
    let ghost pf = opt_text(*project_filter);
    let ghost cf = opt_text(*context_filter);
    let mut keep: Vec<usize> = Vec::new();
    let mut i: usize = 0;
    while i < tasks.len()
        invariant
            i <= tasks.len(),
            views == task_views(tasks@),
            pf == opt_text(*project_filter),
            cf == opt_text(*context_filter),
            keep@ == passing_ids(views, pf, cf, i as int),
        decreases tasks.len() - i,
    {
        let passes_project = match project_filter {
            Some(p) => contains_tag(&tasks[i].projects, p),
            None => true,
        };
        let passes_context = match context_filter {
            Some(c) => contains_tag(&tasks[i].contexts, c),
            None => true,
        };
        proof {
            assert(views[i as int] == tasks@[i as int]@);
        }
        if passes_project && passes_context {
            keep.push(i);
        }
        i += 1;
    }
    if !sort_enabled {
        return keep;
    }
    proof {
        lemma_passing_ids(views, pf, cf, tasks.len() as int);
    }
    let mut first: Vec<usize> = Vec::new();
    let mut second: Vec<usize> = Vec::new();
    let mut k: usize = 0;
    while k < keep.len()
        invariant
            k <= keep.len(),
            views == task_views(tasks@),
            keep@ == passing_ids(views, pf, cf, tasks@.len() as int),
            tasks@.len() == views.len(),
            forall|j: int| 0 <= j < keep.len() ==> #[trigger] keep@[j] < tasks@.len(),
            first@ == by_status(keep@.take(k as int), views, false),
            second@ == by_status(keep@.take(k as int), views, true),
        decreases keep.len() - k,
    {
        let id = keep[k];
        proof {
            assert(keep@.take(k as int + 1).drop_last() =~= keep@.take(k as int));
            assert(keep@.take(k as int + 1).last() == keep@[k as int]);
            assert(views[id as int] == tasks@[id as int]@);
        }
        if !tasks[id].finished {
            first.push(id);
        } else {
            second.push(id);
        }
        k += 1;
    }
    proof {
        assert(keep@.take(keep@.len() as int) =~= keep@);
    }
    let mut result = first;
    result.append(&mut second);
    result
}

} // verus!
