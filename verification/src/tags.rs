//! The tag index: the distinct project and context tags of a collection.
//!
//! Each tag pane shows the lexicographically sorted, deduplicated union of
//! the tags over all records. The sorted row list is defined here as a
//! mathematical value, so that every later contract (selected tag, filter,
//! navigation) can speak about a pane's rows exactly.

use vstd::prelude::*;

use crate::strorder::lemma_lex_transitive;
use crate::strorder::lemma_lex_trichotomy;
use crate::strorder::lex_lt;
use crate::strorder::str_eq;
use crate::strorder::str_lt;
use crate::task::task_views;
use crate::task::Task;
use crate::task::TaskView;

verus! {

/// A row list is strictly ascending: sorted with no duplicates.
pub open spec fn sorted_distinct(l: Seq<Seq<char>>) -> bool {
    forall|i: int, j: int| 0 <= i < j < l.len() ==> lex_lt(l[i], l[j])
}

/// Inserts a tag into a sorted row list, keeping it sorted and distinct.
pub open spec fn insert_tag_spec(l: Seq<Seq<char>>, x: Seq<char>) -> Seq<Seq<char>>
    decreases l.len(),
{
    if l.len() == 0 {
        seq![x]
    } else if x == l[0] {
        l
    } else if lex_lt(x, l[0]) {
        seq![x] + l
    } else {
        seq![l[0]] + insert_tag_spec(l.drop_first(), x)
    }
}

/// Inserts every tag of `tags`, first to last.
pub open spec fn add_tags_spec(l: Seq<Seq<char>>, tags: Seq<Seq<char>>) -> Seq<Seq<char>>
    decreases tags.len(),
{
    if tags.len() == 0 {
        l
    } else {
        add_tags_spec(insert_tag_spec(l, tags[0]), tags.drop_first())
    }
}

/// The sorted, deduplicated union of one tag dimension over all records.
pub open spec fn tag_rows(tasks: Seq<TaskView>, f: spec_fn(TaskView) -> Seq<Seq<char>>) -> Seq<
    Seq<char>,
>
    decreases tasks.len(),
{
    if tasks.len() == 0 {
        Seq::empty()
    } else {
        add_tags_spec(tag_rows(tasks.drop_last(), f), f(tasks.last()))
    }
}

/// The rows of the projects pane.
pub open spec fn projects_rows(tasks: Seq<TaskView>) -> Seq<Seq<char>> {
    tag_rows(tasks, |t: TaskView| t.projects)
}

/// The rows of the contexts pane.
pub open spec fn contexts_rows(tasks: Seq<TaskView>) -> Seq<Seq<char>> {
    tag_rows(tasks, |t: TaskView| t.contexts)
}

/// Membership in a sequence extended at the front by one element.
proof fn lemma_cons_contains<A>(x: A, l: Seq<A>, y: A)
    ensures
        (seq![x] + l).contains(y) <==> (y == x || l.contains(y)),
{
    if (seq![x] + l).contains(y) {
        let i = choose|i: int| 0 <= i < (seq![x] + l).len() && (seq![x] + l)[i] == y;
        if i > 0 {
            assert(l[i - 1] == y);
        }
    }
    if y == x {
        assert((seq![x] + l)[0] == y);
    }
    if l.contains(y) {
        let i = choose|i: int| 0 <= i < l.len() && l[i] == y;
        assert((seq![x] + l)[i + 1] == y);
    }
}

/// Inserting keeps a row list sorted and distinct, and adds exactly the
/// inserted tag to its membership.
pub proof fn lemma_insert_tag(l: Seq<Seq<char>>, x: Seq<char>)
    requires
        sorted_distinct(l),
    ensures
        sorted_distinct(insert_tag_spec(l, x)),
        forall|y: Seq<char>| #[trigger]
            insert_tag_spec(l, x).contains(y) <==> (l.contains(y) || y == x),
    decreases l.len(),
{
    let r = insert_tag_spec(l, x);
    if l.len() == 0 {
        assert forall|y: Seq<char>| #[trigger] r.contains(y) implies (l.contains(y) || y == x) by {
            assert(r[0] == x);
        }
        assert(r.contains(x)) by {
            assert(r[0] == x);
        }
    } else if x == l[0] {
        assert forall|y: Seq<char>| l.contains(y) || y == x implies #[trigger] r.contains(y) by {
            if y == x {
                assert(l[0] == y);
            }
        }
    } else if lex_lt(x, l[0]) {
        assert forall|i: int, j: int| 0 <= i < j < r.len() implies lex_lt(r[i], r[j]) by {
            if i == 0 {
                assert(r[j] == l[j - 1]);
                if j == 1 {
                    assert(lex_lt(x, l[0]));
                } else {
                    lemma_lex_transitive(x, l[0], l[j - 1]);
                }
            } else {
                assert(r[i] == l[i - 1] && r[j] == l[j - 1]);
            }
        }
        assert forall|y: Seq<char>| #[trigger] r.contains(y) <==> (l.contains(y) || y == x) by {
            lemma_cons_contains(x, l, y);
        }
    } else {
        lemma_lex_trichotomy(x, l[0]);
        assert(lex_lt(l[0], x));
        let rest = insert_tag_spec(l.drop_first(), x);
        assert(sorted_distinct(l.drop_first())) by {
            assert forall|i: int, j: int|
                0 <= i < j < l.drop_first().len() implies lex_lt(
                l.drop_first()[i],
                l.drop_first()[j],
            ) by {
                assert(l.drop_first()[i] == l[i + 1] && l.drop_first()[j] == l[j + 1]);
            }
        }
        lemma_insert_tag(l.drop_first(), x);
        assert forall|i: int, j: int| 0 <= i < j < r.len() implies lex_lt(r[i], r[j]) by {
            if i == 0 {
                assert(r[j] == rest[j - 1]);
                assert(rest.contains(rest[j - 1]));
                if rest[j - 1] == x {
                    assert(lex_lt(l[0], x));
                } else {
                    assert(l.drop_first().contains(rest[j - 1]));
                    let k = choose|k: int|
                        0 <= k < l.drop_first().len() && l.drop_first()[k] == rest[j - 1];
                    assert(l[k + 1] == rest[j - 1]);
                    assert(lex_lt(l[0], l[k + 1]));
                }
            } else {
                assert(r[i] == rest[i - 1] && r[j] == rest[j - 1]);
            }
        }
        assert forall|y: Seq<char>| #[trigger] r.contains(y) <==> (l.contains(y) || y == x) by {
            lemma_cons_contains(l[0], rest, y);
            lemma_cons_contains(l[0], l.drop_first(), y);
            assert(l =~= seq![l[0]] + l.drop_first());
        }
    }
}

/// Adding a batch of tags keeps a row list sorted and distinct, and its
/// membership becomes the union with the batch.
pub proof fn lemma_add_tags(l: Seq<Seq<char>>, tags: Seq<Seq<char>>)
    requires
        sorted_distinct(l),
    ensures
        sorted_distinct(add_tags_spec(l, tags)),
        forall|y: Seq<char>| #[trigger]
            add_tags_spec(l, tags).contains(y) <==> (l.contains(y) || tags.contains(y)),
    decreases tags.len(),
{
    if tags.len() == 0 {
        assert(forall|y: Seq<char>| !tags.contains(y));
    } else {
        lemma_insert_tag(l, tags[0]);
        lemma_add_tags(insert_tag_spec(l, tags[0]), tags.drop_first());
        assert forall|y: Seq<char>| #[trigger]
            add_tags_spec(l, tags).contains(y) <==> (l.contains(y) || tags.contains(y)) by {
            lemma_cons_contains(tags[0], tags.drop_first(), y);
            assert(tags =~= seq![tags[0]] + tags.drop_first());
        }
    }
}

/// The tag index contract: the row list of a tag dimension is sorted and
/// distinct, and holds exactly the tags that occur in some record.
pub proof fn lemma_tag_rows(tasks: Seq<TaskView>, f: spec_fn(TaskView) -> Seq<Seq<char>>)
    ensures
        sorted_distinct(tag_rows(tasks, f)),
        forall|y: Seq<char>| #[trigger]
            tag_rows(tasks, f).contains(y) <==> (exists|i: int|
                0 <= i < tasks.len() && #[trigger] f(tasks[i]).contains(y)),
    decreases tasks.len(),
{
    if tasks.len() == 0 {
    } else {
        lemma_tag_rows(tasks.drop_last(), f);
        lemma_add_tags(tag_rows(tasks.drop_last(), f), f(tasks.last()));
        assert forall|y: Seq<char>| #[trigger]
            tag_rows(tasks, f).contains(y) <==> (exists|i: int|
                0 <= i < tasks.len() && #[trigger] f(tasks[i]).contains(y)) by {
            if tag_rows(tasks, f).contains(y) {
                if tag_rows(tasks.drop_last(), f).contains(y) {
                    let i = choose|i: int|
                        0 <= i < tasks.drop_last().len() && #[trigger] f(
                            tasks.drop_last()[i],
                        ).contains(y);
                    assert(tasks.drop_last()[i] == tasks[i]);
                    assert(f(tasks[i]).contains(y));
                } else {
                    assert(f(tasks[tasks.len() - 1]).contains(y));
                }
            }
            if exists|i: int| 0 <= i < tasks.len() && #[trigger] f(tasks[i]).contains(y) {
                let i = choose|i: int| 0 <= i < tasks.len() && #[trigger] f(tasks[i]).contains(y);
                if i < tasks.len() - 1 {
                    assert(tasks.drop_last()[i] == tasks[i]);
                    assert(f(tasks.drop_last()[i]).contains(y));
                } else {
                    assert(f(tasks.last()).contains(y));
                }
            }
        }
    }
}

/// The projects pane rows are sorted and distinct and hold exactly the
/// project tags that occur in some record.
pub proof fn lemma_projects_rows(tasks: Seq<TaskView>)
    ensures
        sorted_distinct(projects_rows(tasks)),
        forall|y: Seq<char>| #[trigger]
            projects_rows(tasks).contains(y) <==> (exists|i: int|
                0 <= i < tasks.len() && #[trigger] tasks[i].projects.contains(y)),
{
    let f = |t: TaskView| t.projects;
    lemma_tag_rows(tasks, f);
    assert forall|y: Seq<char>| #[trigger]
        projects_rows(tasks).contains(y) <==> (exists|i: int|
            0 <= i < tasks.len() && #[trigger] tasks[i].projects.contains(y)) by {
        if projects_rows(tasks).contains(y) {
            let i = choose|i: int| 0 <= i < tasks.len() && #[trigger] f(tasks[i]).contains(y);
            assert(tasks[i].projects.contains(y));
        }
        if exists|i: int| 0 <= i < tasks.len() && #[trigger] tasks[i].projects.contains(y) {
            let i = choose|i: int| 0 <= i < tasks.len() && #[trigger] tasks[i].projects.contains(y);
            assert(f(tasks[i]).contains(y));
        }
    }
}

/// The contexts pane rows are sorted and distinct and hold exactly the
/// context tags that occur in some record.
pub proof fn lemma_contexts_rows(tasks: Seq<TaskView>)
    ensures
        sorted_distinct(contexts_rows(tasks)),
        forall|y: Seq<char>| #[trigger]
            contexts_rows(tasks).contains(y) <==> (exists|i: int|
                0 <= i < tasks.len() && #[trigger] tasks[i].contexts.contains(y)),
{
    let f = |t: TaskView| t.contexts;
    lemma_tag_rows(tasks, f);
    assert forall|y: Seq<char>| #[trigger]
        contexts_rows(tasks).contains(y) <==> (exists|i: int|
            0 <= i < tasks.len() && #[trigger] tasks[i].contexts.contains(y)) by {
        if contexts_rows(tasks).contains(y) {
            let i = choose|i: int| 0 <= i < tasks.len() && #[trigger] f(tasks[i]).contains(y);
            assert(tasks[i].contexts.contains(y));
        }
        if exists|i: int| 0 <= i < tasks.len() && #[trigger] tasks[i].contexts.contains(y) {
            let i = choose|i: int| 0 <= i < tasks.len() && #[trigger] tasks[i].contexts.contains(y);
            assert(f(tasks[i]).contains(y));
        }
    }
}

/// Where the recursive insert lands: at the first row not below the tag.
proof fn lemma_insert_tag_at(l: Seq<Seq<char>>, x: Seq<char>, p: int)
    requires
        0 <= p <= l.len(),
        forall|i: int| 0 <= i < p ==> lex_lt(#[trigger] l[i], x),
        p < l.len() ==> !lex_lt(l[p], x),
    ensures
        insert_tag_spec(l, x) == if p < l.len() && l[p] == x {
            l
        } else {
            l.take(p) + seq![x] + l.skip(p)
        },
    decreases l.len(),
{
    if l.len() == 0 {
        assert(insert_tag_spec(l, x) =~= l.take(p) + seq![x] + l.skip(p));
    } else if p == 0 {
        lemma_lex_trichotomy(x, l[0]);
        if l[0] == x {
        } else {
            assert(lex_lt(x, l[0]));
            assert(seq![x] + l =~= l.take(0) + seq![x] + l.skip(0));
        }
    } else {
        assert(lex_lt(l[0], x));
        lemma_lex_trichotomy(x, l[0]);
        assert(x != l[0] && !lex_lt(x, l[0]));
        assert forall|i: int| 0 <= i < p - 1 implies lex_lt(#[trigger] l.drop_first()[i], x) by {
            assert(l.drop_first()[i] == l[i + 1]);
        }
        assert(p - 1 < l.drop_first().len() ==> !lex_lt(l.drop_first()[p - 1], x));
        lemma_insert_tag_at(l.drop_first(), x, p - 1);
        if p < l.len() && l[p] == x {
            assert(l.drop_first()[p - 1] == l[p]);
            assert(seq![l[0]] + l.drop_first() =~= l);
        } else {
            assert(seq![l[0]] + (l.drop_first().take(p - 1) + seq![x] + l.drop_first().skip(p - 1))
                =~= l.take(p) + seq![x] + l.skip(p));
        }
    }
}

/// The index of the first row that is not below `tag`.
fn lower_bound(list: &Vec<String>, tag: &String) -> (p: usize)
    ensures
        p <= list.len(),
        forall|i: int| 0 <= i < p ==> lex_lt(#[trigger] list.deep_view()[i], tag@),
        p < list.len() ==> !lex_lt(list.deep_view()[p as int], tag@),
{
    let mut p: usize = 0;
    while p < list.len()
        invariant
            p <= list.len(),
            forall|i: int| 0 <= i < p ==> lex_lt(#[trigger] list.deep_view()[i], tag@),
        decreases list.len() - p,
    {
        if !str_lt(list[p].as_str(), tag.as_str()) {
            return p;
        }
        p += 1;
    }
    p
}

/// Inserts a tag into a sorted row list, skipping a duplicate.
fn insert_tag(list: &mut Vec<String>, tag: &String)
    ensures
        final(list).deep_view() == insert_tag_spec(old(list).deep_view(), tag@),
{
    let p = lower_bound(list, tag);
    let ghost l = list.deep_view();
    if p < list.len() && str_eq(list[p].as_str(), tag.as_str()) {
        proof {
            lemma_insert_tag_at(l, tag@, p as int);
        }
    } else {
        list.insert(p, tag.clone());
        proof {
            lemma_insert_tag_at(l, tag@, p as int);
            assert(list.deep_view() =~= l.take(p as int) + seq![tag@] + l.skip(p as int)) by {
                assert(list@ =~= old(list)@.insert(p as int, list@[p as int]));
                assert(list@[p as int]@ == tag@);
            }
        }
    }
}

/// Collects one tag dimension of every record into a sorted, distinct
/// row list, matching `tag_rows` for the corresponding selector.
fn collect_rows(tasks: &Vec<Task>, use_projects: bool) -> (rows: Vec<String>)
    ensures
        use_projects ==> rows.deep_view() == projects_rows(task_views(tasks@)),
        !use_projects ==> rows.deep_view() == contexts_rows(task_views(tasks@)),
{
    let ghost f: spec_fn(TaskView) -> Seq<Seq<char>> = if use_projects {
        |t: TaskView| t.projects
    } else {
        |t: TaskView| t.contexts
    };
    let ghost all = task_views(tasks@);
    let mut rows: Vec<String> = Vec::new();
    let mut i: usize = 0;
    while i < tasks.len()
        invariant
            i <= tasks.len(),
            all == task_views(tasks@),
            rows.deep_view() == tag_rows(all.take(i as int), f),
            f == if use_projects {
                |t: TaskView| t.projects
            } else {
                |t: TaskView| t.contexts
            },
        decreases tasks.len() - i,
    {
        let tags: &Vec<String> = if use_projects {
            &tasks[i].projects
        } else {
            &tasks[i].contexts
        };
        proof {
            assert(all[i as int] == tasks@[i as int]@);
            assert(tags.deep_view() == f(all[i as int]));
        }
        let ghost base = rows.deep_view();
        proof {
            assert(tags.deep_view().skip(0) =~= tags.deep_view());
        }
        let mut j: usize = 0;
        while j < tags.len()
            invariant
                j <= tags.len(),
                tags.deep_view() == f(all[i as int]),
                0 <= i < all.len(),
                add_tags_spec(base, tags.deep_view()) == add_tags_spec(
                    rows.deep_view(),
                    tags.deep_view().skip(j as int),
                ),
            decreases tags.len() - j,
        {
            let ghost before = rows.deep_view();
            insert_tag(&mut rows, &tags[j]);
            proof {
                let rest = tags.deep_view().skip(j as int);
                assert(rest[0] == tags.deep_view()[j as int]);
                assert(rest.drop_first() =~= tags.deep_view().skip(j as int + 1));
                assert(add_tags_spec(before, rest) == add_tags_spec(
                    insert_tag_spec(before, rest[0]),
                    rest.drop_first(),
                ));
            }
            j += 1;
        }
        proof {
            assert(tags.deep_view().skip(tags.len() as int) =~= Seq::<Seq<char>>::empty());
            assert(rows.deep_view() == add_tags_spec(base, tags.deep_view()));
            assert(all.take(i as int + 1).drop_last() =~= all.take(i as int));
            assert(all.take(i as int + 1).last() == all[i as int]);
            assert(tag_rows(all.take(i as int + 1), f) == add_tags_spec(
                tag_rows(all.take(i as int), f),
                f(all[i as int]),
            ));
        }
        i += 1;
    }
    proof {
        assert(all.take(tasks.len() as int) =~= all);
    }
    rows
}

/// The rows of the projects pane: every project tag, sorted, once.
pub fn projects_of(tasks: &Vec<Task>) -> (rows: Vec<String>)
    ensures
        rows.deep_view() == projects_rows(task_views(tasks@)),
{
    collect_rows(tasks, true)
}

/// The rows of the contexts pane: every context tag, sorted, once.
pub fn contexts_of(tasks: &Vec<Task>) -> (rows: Vec<String>)
    ensures
        rows.deep_view() == contexts_rows(task_views(tasks@)),
{
    collect_rows(tasks, false)
}

} // verus!
