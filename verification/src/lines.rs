//! The persisted record stream: one task per line.
//!
//! Loading splits the stream on newlines and hands each line to the text
//! parser; every line yields a record, so an empty line yields the empty
//! record and positions are preserved — a choice made here explicitly,
//! matching the literal split of the stream. Saving prints every record
//! and joins the lines with newlines.

use vstd::prelude::*;

use crate::date::Date;
use crate::task::task_views;
use crate::task::Task;
use crate::task::TaskView;
use crate::textio::parse_of;
use crate::textio::parse_task;
use crate::textio::serialize_task;
use crate::textio::text_of;
use crate::textio::valid_parse_base;

verus! {

/// The lines of a text: the pieces between newlines, in order. A text
/// without newlines is a single line; a trailing newline yields a final
/// empty line.
pub open spec fn split_lines(text: Seq<char>) -> Seq<Seq<char>>
    decreases text.len(),
{
    if text.len() == 0 {
        seq![Seq::empty()]
    } else if text[0] == '\n' {
        seq![Seq::<char>::empty()] + split_lines(text.drop_first())
    } else {
        let rest = split_lines(text.drop_first());
        seq![seq![text[0]] + rest[0]] + rest.drop_first()
    }
}

/// A split always yields at least one line.
pub proof fn lemma_split_nonempty(text: Seq<char>)
    ensures
        split_lines(text).len() >= 1,
    decreases text.len(),
{
    if text.len() > 0 {
        lemma_split_nonempty(text.drop_first());
    }
}

/// A text without newlines is its own single line.
proof fn lemma_split_whole(text: Seq<char>)
    requires
        forall|j: int| 0 <= j < text.len() ==> text[j] != '\n',
    ensures
        split_lines(text) == seq![text],
    decreases text.len(),
{
    if text.len() == 0 {
        assert(text =~= Seq::<char>::empty());
        assert(split_lines(text) =~= seq![text]);
    } else {
        assert forall|j: int| 0 <= j < text.drop_first().len() implies text.drop_first()[j]
            != '\n' by {
            assert(text.drop_first()[j] == text[j + 1]);
        }
        lemma_split_whole(text.drop_first());
        let rest = split_lines(text.drop_first());
        assert(rest[0] == text.drop_first());
        assert(seq![text[0]] + text.drop_first() =~= text);
        assert(split_lines(text) =~= seq![text]);
    }
}

/// Splitting at the first newline: the prefix is the first line and the
/// remainder splits on its own.
proof fn lemma_split_first(text: Seq<char>, i: int)
    requires
        0 <= i < text.len(),
        text[i] == '\n',
        forall|j: int| 0 <= j < i ==> text[j] != '\n',
    ensures
        split_lines(text) == seq![text.take(i)] + split_lines(text.skip(i + 1)),
    decreases i,
{
    if i == 0 {
        assert(text.take(0) =~= Seq::<char>::empty());
        assert(text.skip(1) =~= text.drop_first());
    } else {
        assert forall|j: int| 0 <= j < i - 1 implies text.drop_first()[j] != '\n' by {
            assert(text.drop_first()[j] == text[j + 1]);
        }
        assert(text.drop_first()[i - 1] == text[i]);
        lemma_split_first(text.drop_first(), i - 1);
        let rest = split_lines(text.drop_first());
        lemma_split_nonempty(text.drop_first().skip(i));
        assert(rest[0] == text.drop_first().take(i - 1));
        assert(seq![text[0]] + text.drop_first().take(i - 1) =~= text.take(i));
        assert(text.drop_first().skip(i) =~= text.skip(i + 1));
        assert(rest.drop_first() =~= split_lines(text.skip(i + 1)));
        assert(split_lines(text) =~= seq![text.take(i)] + split_lines(text.skip(i + 1)));
    }
}

/// The records parsed from a record stream, line by line.
pub open spec fn parsed_lines(text: Seq<char>, today: Date) -> Seq<TaskView> {
    split_lines(text).map_values(|line: Seq<char>| parse_of(line, today))
}

/// Parses a record stream into the collection: one record per line, in
/// order, each line handed to the text parser with today's date; the
/// base date must sit inside the calendar range the parser may shift
/// within.
pub fn load_collection(text: &str, today: Date) -> (tasks: Vec<Task>)
    requires
        valid_parse_base(today),
    ensures
        task_views(tasks@) == parsed_lines(text@, today),
{
    let n = text.unicode_len();
    let mut tasks: Vec<Task> = Vec::new();
    let mut start: usize = 0;
    let mut i: usize = 0;
    let ghost whole = text@;
    let ghost parse_fn: spec_fn(Seq<char>) -> TaskView = |line: Seq<char>| parse_of(line, today);
    let ghost mut done: Seq<Seq<char>> = Seq::empty();
    proof {
        assert(whole.skip(0) =~= whole);
        assert(split_lines(whole) =~= done + split_lines(whole.skip(0)));
        assert(task_views(tasks@) =~= done.map_values(parse_fn));
    }
    while i < n
        invariant
            valid_parse_base(today),
            start <= i <= n,
            n == whole.len(),
            whole == text@,
            forall|j: int| start <= j < i ==> whole[j] != '\n',
            split_lines(whole) == done + split_lines(whole.skip(start as int)),
            parse_fn == (|line: Seq<char>| parse_of(line, today)),
            task_views(tasks@) == done.map_values(parse_fn),
        decreases n - i,
    {
        let c = text.get_char(i);
        if c == '\n' {
            let line = text.substring_char(start, i);
            let t = parse_task(line, today);
            let ghost before = tasks@;
            tasks.push(t);
            proof {
                let prev = done;
                let rest = whole.skip(start as int);
                assert forall|j: int| 0 <= j < i - start implies rest[j] != '\n' by {
                    assert(rest[j] == whole[j + start]);
                }
                assert(rest[(i - start) as int] == whole[i as int]);
                lemma_split_first(rest, (i - start) as int);
                assert(rest.take((i - start) as int) =~= line@);
                assert(rest.skip((i - start) as int + 1) =~= whole.skip(i as int + 1));
                done = prev.push(line@);
                assert(done =~= prev + seq![line@]);
                assert(split_lines(whole) =~= done + split_lines(whole.skip(i as int + 1)));
                assert(task_views(before).len() == before.len());
                assert(prev.map_values(parse_fn).len() == prev.len());
                assert(prev.len() == before.len());
                assert forall|k: int| 0 <= k < tasks@.len() implies task_views(tasks@)[k]
                    == done.map_values(parse_fn)[k] by {
                    if k < tasks@.len() - 1 {
                        assert(tasks@[k] == before[k]);
                        assert(task_views(before)[k] == prev.map_values(parse_fn)[k]);
                        assert(done[k] == prev[k]);
                    } else {
                        assert(done[k] == line@);
                        assert(tasks@[k]@ == parse_of(line@, today));
                    }
                }
                assert(task_views(tasks@) =~= done.map_values(parse_fn));
            }
            i += 1;
            start = i;
        } else {
            i += 1;
        }
    }
    let line = text.substring_char(start, n);
    let t = parse_task(line, today);
    let ghost before = tasks@;
    tasks.push(t);
    proof {
        let prev = done;
        let rest = whole.skip(start as int);
        assert forall|j: int| 0 <= j < rest.len() implies rest[j] != '\n' by {
            assert(rest[j] == whole[j + start]);
        }
        lemma_split_whole(rest);
        assert(rest =~= line@);
        done = prev.push(line@);
        assert(done =~= prev + seq![line@]);
        assert(split_lines(whole.skip(start as int)) == seq![rest]);
        assert(done =~= split_lines(whole));
        assert(task_views(before).len() == before.len());
        assert(prev.map_values(parse_fn).len() == prev.len());
        assert(prev.len() == before.len());
        assert forall|k: int| 0 <= k < tasks@.len() implies task_views(tasks@)[k]
            == done.map_values(parse_fn)[k] by {
            if k < tasks@.len() - 1 {
                assert(tasks@[k] == before[k]);
                assert(task_views(before)[k] == prev.map_values(parse_fn)[k]);
                assert(done[k] == prev[k]);
            } else {
                assert(done[k] == line@);
                assert(tasks@[k]@ == parse_of(line@, today));
            }
        }
        assert(task_views(tasks@) =~= done.map_values(parse_fn));
        assert(task_views(tasks@) =~= parsed_lines(whole, today));
    }
    tasks
}

/// The record stream for a collection: every record's text form, joined
/// with newlines.
pub open spec fn collection_text(tasks: Seq<TaskView>) -> Seq<char>
    decreases tasks.len(),
{
    if tasks.len() == 0 {
        Seq::empty()
    } else if tasks.len() == 1 {
        text_of(tasks[0])
    } else {
        collection_text(tasks.drop_last()) + seq!['\n'] + text_of(tasks.last())
    }
}

/// Prints the whole collection as its record stream.
pub fn serialize_collection(tasks: &Vec<Task>) -> (r: String)
    ensures
        r@ == collection_text(task_views(tasks@)),
{
    let mut r = String::new();
    let mut i: usize = 0;
    let ghost views = task_views(tasks@);
    while i < tasks.len()
        invariant
            i <= tasks.len(),
            views == task_views(tasks@),
            r@ == collection_text(views.take(i as int)),
        decreases tasks.len() - i,
    {
        if i > 0 {
            r.append("\n");
            proof {
                reveal_strlit("\n");
            }
        }
        let line = serialize_task(&tasks[i]);
        r.append(line.as_str());
        proof {
            assert(views.take(i as int + 1).drop_last() =~= views.take(i as int));
            assert(views.take(i as int + 1).last() == views[i as int]);
            assert(views[i as int] == tasks@[i as int]@);
            if i > 0 {
                assert(r@ == collection_text(views.take(i as int)) + seq!['\n'] + text_of(
                    views[i as int],
                ));
            } else {
                assert(views.take(1).len() == 1);
                assert(r@ == text_of(views[0]));
            }
        }
        i += 1;
    }
    proof {
        assert(views.take(tasks@.len() as int) =~= views);
    }
    r
}

} // verus!
