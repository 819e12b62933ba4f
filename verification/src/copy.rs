//! Bringing the emitted files to their place.

use vstd::prelude::*;
use vstd::string::*;

use crate::text;
use crate::walk::Entry;

verus! {

/// A file to be brought to its place.
pub struct CopyTask<'a, P> {
    pub source: &'a P,
    pub destination: String,
}

/// What is logged before the files go into `to_dir`.
pub open spec fn copy_text(to_dir: Seq<char>) -> Seq<char> {
    "Copying generated files into '"@ + to_dir + "'..."@
}

/// Every regular file that the walk came upon goes into `to_dir` under its own name, whatever
/// directory it was found in.
pub open spec fn copies<P>(items: Seq<Result<Entry<P>, String>>, to_dir: Seq<char>) -> Seq<
    (P, Seq<char>),
>
    decreases items.len(),
{
    if items.len() == 0 {
        Seq::empty()
    } else {
        let before = copies(items.drop_last(), to_dir);
        match items.last() {
            Ok(entry) => if entry.is_file {
                before.push((entry.path, to_dir + "/"@ + entry.name@))
            } else {
                before
            },
            Err(_) => before,
        }
    }
}

/// What a list of tasks holds.
pub open spec fn tasks<P>(list: Seq<CopyTask<P>>) -> Seq<(P, Seq<char>)> {
    list.map_values(|t: CopyTask<P>| (*t.source, t.destination@))
}

/// What is logged before the files go into `to_dir`.
pub fn copy_message(to_dir: &str) -> (message: String)
    ensures
        message@ == copy_text(to_dir@),
        message@ == "Copying generated files into '"@ + to_dir@ + "'..."@,
{
    let mut message = text::concat("Copying generated files into '", to_dir);
    message.append("'...");
    message
}

/// Which files go where.
pub fn copy_generated_files<'a, P>(
    items: &'a Vec<Result<Entry<P>, String>>,
    to_dir: &str,
) -> (list: Vec<CopyTask<'a, P>>)
    ensures
        tasks(list@) == copies(items@, to_dir@),
{
    let mut list: Vec<CopyTask<'a, P>> = Vec::new();
    let mut i: usize = 0;
    while i < items.len()
        invariant
            i <= items@.len(),
            tasks(list@) == copies(items@.take(i as int), to_dir@),
        decreases items@.len() - i,
    {
        let ghost before = list@;
        proof {
            assert(items@.take(i + 1).drop_last() =~= items@.take(i as int));
        }
        if let Ok(entry) = &items[i] {
            if entry.is_file {
                let mut destination = text::concat(to_dir, "/");
                destination.append(entry.name.as_str());
                list.push(CopyTask { source: &entry.path, destination });
                proof {
                    assert(tasks(list@) =~= tasks(before).push(
                        (entry.path, to_dir@ + "/"@ + entry.name@),
                    ));
                }
            }
        }
        i += 1;
    }
    proof {
        assert(items@.take(items@.len() as int) =~= items@);
    }
    list
}

/// One line for each error, in order.
pub open spec fn error_lines(results: Seq<Result<(), String>>) -> Seq<Seq<char>>
    decreases results.len(),
{
    if results.len() == 0 {
        Seq::empty()
    } else {
        let before = error_lines(results.drop_last());
        match results.last() {
            Err(error) => before.push("[error] Error while copying compiled file: "@ + error@),
            Ok(_) => before,
        }
    }
}

/// What is reported once all the files have been dealt with. If there is anything to report, the
/// build breaks off.
pub fn copy_errors(results: &Vec<Result<(), String>>) -> (lines: Vec<String>)
    ensures
        text::strings(lines@) == error_lines(results@),
{
    let mut lines: Vec<String> = Vec::new();
    let mut i: usize = 0;
    while i < results.len()
        invariant
            i <= results@.len(),
            text::strings(lines@) == error_lines(results@.take(i as int)),
        decreases results@.len() - i,
    {
        proof {
            assert(results@.take(i + 1).drop_last() =~= results@.take(i as int));
        }
        if let Err(error) = &results[i] {
            let line = text::concat("[error] Error while copying compiled file: ", error.as_str());
            proof {
                text::lemma_strings_push(lines@, line);
            }
            lines.push(line);
        }
        i += 1;
    }
    proof {
        assert(results@.take(results@.len() as int) =~= results@);
    }
    lines
}

/// The build goes on exactly if every file has been dealt with without an error.
pub proof fn law_errors_are_reported(results: Seq<Result<(), String>>)
    ensures
        error_lines(results).len() == 0 <==> forall|i: int|
            0 <= i < results.len() ==> #[trigger] results[i] is Ok,
    decreases results.len(),
{
    if results.len() > 0 {
        let front = results.drop_last();
        law_errors_are_reported(front);
        assert forall|i: int| 0 <= i < front.len() implies front[i] == #[trigger] results[i] by {}
        if error_lines(results).len() == 0 {
            assert forall|i: int| 0 <= i < results.len() implies #[trigger] results[i] is Ok by {
                if i < front.len() {
                    assert(front[i] is Ok);
                }
            }
        } else if forall|i: int| 0 <= i < results.len() ==> #[trigger] results[i] is Ok {
            assert(results[results.len() - 1] is Ok);
            assert forall|i: int| 0 <= i < front.len() implies #[trigger] front[i] is Ok by {
                assert(results[i] is Ok);
            }
        }
    }
}

/// A file goes to a place exactly if the walk came upon it, it is a regular file, and the place is
/// its name in the directory.
pub proof fn law_every_file_is_copied<P>(
    items: Seq<Result<Entry<P>, String>>,
    to_dir: Seq<char>,
    path: P,
    destination: Seq<char>,
)
    ensures
        copies(items, to_dir).contains((path, destination)) <==> exists|i: int|
            0 <= i < items.len() && (#[trigger] items[i] matches Ok(entry) && entry.is_file
                && entry.path == path && destination == to_dir + "/"@ + entry.name@),
    decreases items.len(),
{
    let pair = (path, destination);
    if items.len() > 0 {
        let front = items.drop_last();
        let before = copies(front, to_dir);
        law_every_file_is_copied(front, to_dir, path, destination);
        if copies(items, to_dir).contains(pair) {
            if before.contains(pair) {
                let i = choose|i: int|
                    0 <= i < front.len() && (#[trigger] front[i] matches Ok(entry)
                        && entry.is_file && entry.path == path && destination == to_dir + "/"@
                        + entry.name@);
                assert(items[i] == front[i]);
            } else {
                assert(items[items.len() - 1] == items.last());
            }
        }
        if exists|i: int|
            0 <= i < items.len() && (#[trigger] items[i] matches Ok(entry) && entry.is_file
                && entry.path == path && destination == to_dir + "/"@ + entry.name@) {
            let i = choose|i: int|
                0 <= i < items.len() && (#[trigger] items[i] matches Ok(entry) && entry.is_file
                    && entry.path == path && destination == to_dir + "/"@ + entry.name@);
            if i < front.len() {
                assert(front[i] == items[i]);
                let k = before.index_of(pair);
                assert(copies(items, to_dir)[k] == pair);
            } else {
                assert(copies(items, to_dir).last() == pair);
            }
        }
    }
}

/// What is copied from one walk and then another is what is copied from each, in this order.
pub proof fn law_files_are_copied_in_order<P>(
    a: Seq<Result<Entry<P>, String>>,
    b: Seq<Result<Entry<P>, String>>,
    to_dir: Seq<char>,
)
    ensures
        copies(a + b, to_dir) == copies(a, to_dir) + copies(b, to_dir),
    decreases b.len(),
{
    if b.len() == 0 {
        assert(a + b =~= a);
        assert(copies(a, to_dir) + copies(b, to_dir) =~= copies(a, to_dir));
    } else {
        assert((a + b).drop_last() =~= a + b.drop_last());
        assert((a + b).last() == b.last());
        law_files_are_copied_in_order(a, b.drop_last(), to_dir);
        assert(copies(a + b, to_dir) =~= copies(a, to_dir) + copies(b, to_dir));
    }
}

/// A regular file is copied once, to its name in the directory; nothing else is copied.
pub proof fn law_each_file_is_copied_once<P>(item: Result<Entry<P>, String>, to_dir: Seq<char>)
    ensures
        item matches Ok(entry) && entry.is_file ==> copies(seq![item], to_dir) == seq![
            (item->Ok_0.path, to_dir + "/"@ + item->Ok_0.name@),
        ],
        !(item matches Ok(entry) && entry.is_file) ==> copies(seq![item], to_dir) == Seq::<
            (P, Seq<char>),
        >::empty(),
{
    let items = seq![item];
    assert(copies(items.drop_last(), to_dir) =~= Seq::empty());
    if item matches Ok(entry) && entry.is_file {
        assert(copies(items, to_dir) =~= seq![
            (item->Ok_0.path, to_dir + "/"@ + item->Ok_0.name@),
        ]);
    }
}

/// What is reported goes file by file: one line with what the error says for a file that failed,
/// and none for one that did not.
pub proof fn law_each_error_has_its_line(
    a: Seq<Result<(), String>>,
    result: Result<(), String>,
    b: Seq<Result<(), String>>,
)
    ensures
        error_lines(a + seq![result] + b) == error_lines(a) + (match result {
            Err(error) => seq!["[error] Error while copying compiled file: "@ + error@],
            Ok(_) => Seq::<Seq<char>>::empty(),
        }) + error_lines(b),
    decreases b.len(),
{
    let whole = a + seq![result] + b;
    let line = match result {
        Err(error) => seq!["[error] Error while copying compiled file: "@ + error@],
        Ok(_) => Seq::<Seq<char>>::empty(),
    };
    if b.len() == 0 {
        assert(whole.drop_last() =~= a);
        assert(whole.last() == result);
    } else {
        assert(whole.drop_last() =~= a + seq![result] + b.drop_last());
        assert(whole.last() == b.last());
        law_each_error_has_its_line(a, result, b.drop_last());
    }
    assert(error_lines(whole) =~= error_lines(a) + line + error_lines(b));
}

/// The list of tasks says of each file where it is and where it goes, one for one and in order.
pub proof fn law_tasks_hold_their_files<P>(list: Seq<CopyTask<P>>, i: int)
    requires
        0 <= i < list.len(),
    ensures
        tasks(list).len() == list.len(),
        tasks(list)[i] == (*list[i].source, list[i].destination@),
{
}

} // verus!
