//! What is picked out of a directory tree.
//!
//! The library does not read directories: it is handed what a walk over a tree came upon, in the
//! order in which the walk came upon it. How paths are held is left to the caller.

use vstd::prelude::*;
use vstd::string::*;

use crate::text;

verus! {

/// Something that a walk came upon.
pub struct Entry<P> {
    /// Where it is.
    pub path: P,
    /// The last part of its path.
    pub name: String,
    /// Whether it is a regular file.
    pub is_file: bool,
}

/// What a walk over the tree below `root` came upon: entries, and errors with what they say.
pub struct Walk<P> {
    pub root: String,
    pub entries: Vec<Result<Entry<P>, String>>,
}

/// A tree that could not be walked without an error, and the first error.
pub struct WalkFailure {
    pub root: String,
    pub error: String,
}

/// What a [`WalkFailure`] holds.
pub struct WalkFailureView {
    pub root: Seq<char>,
    pub error: Seq<char>,
}

impl View for WalkFailure {
    type V = WalkFailureView;

    open spec fn view(&self) -> WalkFailureView {
        WalkFailureView { root: self.root@, error: self.error@ }
    }
}

/// The position of the last dot in a name; -1 if there is none.
pub open spec fn last_dot(name: Seq<char>) -> int
    decreases name.len(),
{
    if name.len() == 0 {
        -1
    } else if name.last() == '.' {
        name.len() - 1
    } else {
        last_dot(name.drop_last())
    }
}

/// The extension of a file name: what stands behind its last dot. There is none where the only dot
/// is the first character, nor for the parent directory.
pub open spec fn extension(name: Seq<char>) -> Option<Seq<char>> {
    if last_dot(name) <= 0 || name == ".."@ {
        None
    } else {
        Some(name.skip(last_dot(name) + 1))
    }
}

/// The walk came upon a regular file with the extension.
pub open spec fn is_file_with<P>(item: Result<Entry<P>, String>, ext: Seq<char>) -> bool {
    item matches Ok(entry) && entry.is_file && extension(entry.name@) == Some(ext)
}

/// Where the regular files with the extension are, in the order of the walk.
pub open spec fn files_with<P>(items: Seq<Result<Entry<P>, String>>, ext: Seq<char>) -> Seq<P>
    decreases items.len(),
{
    if items.len() == 0 {
        Seq::empty()
    } else {
        let before = files_with(items.drop_last(), ext);
        if is_file_with(items.last(), ext) {
            before.push(items.last()->Ok_0.path)
        } else {
            before
        }
    }
}

/// The first error that a walk ran into.
pub open spec fn first_error<P>(items: Seq<Result<Entry<P>, String>>) -> Option<Seq<char>>
    decreases items.len(),
{
    if items.len() == 0 {
        None
    } else {
        match items[0] {
            Err(error) => Some(error@),
            Ok(_) => first_error(items.skip(1)),
        }
    }
}

/// The proto files of all the trees that were walked without an error, tree by tree.
pub open spec fn collected<P>(walks: Seq<Walk<P>>) -> Seq<P>
    decreases walks.len(),
{
    if walks.len() == 0 {
        Seq::empty()
    } else {
        let before = collected(walks.drop_last());
        if first_error(walks.last().entries@) is None {
            before + files_with(walks.last().entries@, "proto"@)
        } else {
            before
        }
    }
}

/// The trees that were not, with the first error of each.
pub open spec fn failures<P>(walks: Seq<Walk<P>>) -> Seq<WalkFailureView>
    decreases walks.len(),
{
    if walks.len() == 0 {
        Seq::empty()
    } else {
        let before = failures(walks.drop_last());
        match first_error(walks.last().entries@) {
            Some(error) => before.push(WalkFailureView { root: walks.last().root@, error }),
            None => before,
        }
    }
}

/// What a list of references refers to.
pub open spec fn targets<P>(list: Seq<&P>) -> Seq<P> {
    list.map_values(|p: &P| *p)
}

/// What a list of failures holds.
pub open spec fn failure_views(list: Seq<WalkFailure>) -> Seq<WalkFailureView> {
    list.map_values(|f: WalkFailure| f@)
}

/// The extension of a file name.
pub fn file_extension(name: &str) -> (ext: Option<String>)
    ensures
        ext is None <==> extension(name@) is None,
        ext matches Some(e) ==> extension(name@) == Some(e@),
{
    let n: usize = name.unicode_len();
    let parent = "..".to_owned();
    if name.to_owned() == parent {
        return None;
    }
    let mut i: usize = n;
    proof {
        assert(name@.take(n as int) =~= name@);
    }
    while i > 0
        invariant
            i <= n,
            n == name@.len(),
            name@ != ".."@,
            last_dot(name@) == last_dot(name@.take(i as int)),
        decreases i,
    {
        proof {
            assert(name@.take(i as int).drop_last() =~= name@.take(i - 1));
        }
        if name.get_char(i - 1) == '.' {
            if i == 1 {
                return None;
            }
            return Some(name.substring_char(i, n).to_owned());
        }
        i -= 1;
    }
    None
}

/// Whether a regular file with the extension was come upon.
fn is_wanted<P>(item: &Result<Entry<P>, String>, ext: &String) -> (yes: bool)
    ensures
        yes == is_file_with(*item, ext@),
{
    match item {
        Ok(entry) => {
            if !entry.is_file {
                return false;
            }
            match file_extension(entry.name.as_str()) {
                Some(e) => e == *ext,
                None => false,
            }
        },
        Err(_) => false,
    }
}

/// Where the regular files with the extension are.
fn select<'a, P>(items: &'a Vec<Result<Entry<P>, String>>, ext: &str) -> (out: Vec<&'a P>)
    ensures
        targets(out@) == files_with(items@, ext@),
{
    let wanted = ext.to_owned();
    let mut out: Vec<&'a P> = Vec::new();
    let mut i: usize = 0;
    while i < items.len()
        invariant
            i <= items@.len(),
            wanted@ == ext@,
            targets(out@) == files_with(items@.take(i as int), ext@),
        decreases items@.len() - i,
    {
        let ghost before = out@;
        proof {
            assert(items@.take(i + 1).drop_last() =~= items@.take(i as int));
        }
        if is_wanted(&items[i], &wanted) {
            if let Ok(entry) = &items[i] {
                out.push(&entry.path);
                proof {
                    assert(targets(out@) =~= targets(before).push(entry.path));
                }
            }
        }
        i += 1;
    }
    proof {
        assert(items@.take(items@.len() as int) =~= items@);
    }
    out
}

/// The first error among what a walk came upon.
fn find_error<P>(items: &Vec<Result<Entry<P>, String>>) -> (error: Option<String>)
    ensures
        error is None <==> first_error(items@) is None,
        error matches Some(e) ==> first_error(items@) == Some(e@),
{
    proof {
        assert(items@.skip(0) =~= items@);
    }
    let mut i: usize = 0;
    while i < items.len()
        invariant
            i <= items@.len(),
            first_error(items@) == first_error(items@.skip(i as int)),
        decreases items@.len() - i,
    {
        if let Err(error) = &items[i] {
            return Some(error.clone());
        }
        proof {
            assert(items@.skip(i as int).skip(1) =~= items@.skip(i + 1));
        }
        i += 1;
    }
    None
}

/// Adds to `protos` the proto files in each of the trees. An error anywhere in a tree fails the
/// tree: none of its files is added, and the tree is in the list that is returned.
pub fn collect_protos<'a, P>(walks: &'a Vec<Walk<P>>, protos: &mut Vec<&'a P>) -> (failed: Vec<
    WalkFailure,
>)
    ensures
        targets(final(protos)@) == targets(old(protos)@) + collected(walks@),
        failure_views(failed@) == failures(walks@),
{
    let mut failed: Vec<WalkFailure> = Vec::new();
    let mut i: usize = 0;
    proof {
        assert(targets(old(protos)@) + Seq::<P>::empty() =~= targets(old(protos)@));
    }
    while i < walks.len()
        invariant
            i <= walks@.len(),
            targets(protos@) == targets(old(protos)@) + collected(walks@.take(i as int)),
            failure_views(failed@) == failures(walks@.take(i as int)),
        decreases walks@.len() - i,
    {
        let ghost before = protos@;
        let ghost failed_before = failed@;
        proof {
            assert(walks@.take(i + 1).drop_last() =~= walks@.take(i as int));
        }
        match find_error(&walks[i].entries) {
            Some(error) => {
                failed.push(WalkFailure { root: walks[i].root.clone(), error });
                proof {
                    assert(failure_views(failed@) =~= failure_views(failed_before).push(
                        failed@.last()@,
                    ));
                }
            },
            None => {
                let mut found = select(&walks[i].entries, "proto");
                let ghost add = found@;
                protos.append(&mut found);
                proof {
                    assert(targets(protos@) =~= targets(before) + targets(add));
                    assert(targets(protos@) =~= targets(old(protos)@) + (collected(
                        walks@.take(i as int),
                    ) + targets(add)));
                }
            },
        }
        i += 1;
    }
    proof {
        assert(walks@.take(walks@.len() as int) =~= walks@);
    }
    failed
}

/// The arguments that `rustfmt` is run with: flags, then files.
pub struct RustfmtArgs<'a, P> {
    pub flags: Vec<String>,
    pub files: Vec<&'a P>,
}

/// `rustfmt` is run on all the Rust files that the walk came upon, as code of the 2021 edition.
pub fn run_rustfmt<'a, P>(items: &'a Vec<Result<Entry<P>, String>>) -> (args: RustfmtArgs<'a, P>)
    ensures
        text::strings(args.flags@) == seq!["--edition"@, "2021"@],
        targets(args.files@) == files_with(items@, "rs"@),
{
    let flags = text::owned(&vec!["--edition", "2021"]);
    proof {
        assert(text::strings(flags@) =~= seq!["--edition"@, "2021"@]);
    }
    RustfmtArgs { flags, files: select(items, "rs") }
}

/// A path is in the list exactly if the walk came upon a regular file there with the extension.
pub proof fn law_selected_files<P>(items: Seq<Result<Entry<P>, String>>, ext: Seq<char>, path: P)
    ensures
        files_with(items, ext).contains(path) <==> exists|i: int|
            0 <= i < items.len() && is_file_with(#[trigger] items[i], ext) && items[i]->Ok_0.path
                == path,
    decreases items.len(),
{
    if items.len() > 0 {
        let front = items.drop_last();
        let before = files_with(front, ext);
        law_selected_files(front, ext, path);
        if files_with(items, ext).contains(path) {
            if before.contains(path) {
                let i = choose|i: int|
                    0 <= i < front.len() && is_file_with(#[trigger] front[i], ext)
                        && front[i]->Ok_0.path == path;
                assert(items[i] == front[i]);
            } else {
                assert(items[items.len() - 1] == items.last());
            }
        }
        if exists|i: int|
            0 <= i < items.len() && is_file_with(#[trigger] items[i], ext) && items[i]->Ok_0.path
                == path {
            let i = choose|i: int|
                0 <= i < items.len() && is_file_with(#[trigger] items[i], ext)
                    && items[i]->Ok_0.path == path;
            if i < front.len() {
                assert(front[i] == items[i]);
                let k = before.index_of(path);
                assert(files_with(items, ext)[k] == path);
            } else {
                assert(files_with(items, ext).last() == path);
            }
        }
    }
}

/// All proto files are located, and nothing else is: a path is collected exactly if, in a tree that
/// was walked without an error, a regular file with the extension `proto` is there.
pub proof fn law_collected_protos<P>(walks: Seq<Walk<P>>, path: P)
    ensures
        collected(walks).contains(path) <==> exists|w: int|
            0 <= w < walks.len() && first_error(#[trigger] walks[w].entries@) is None
                && files_with(walks[w].entries@, "proto"@).contains(path),
    decreases walks.len(),
{
    if walks.len() > 0 {
        let front = walks.drop_last();
        let before = collected(front);
        let last = walks.last();
        law_collected_protos(front, path);
        if collected(walks).contains(path) {
            if before.contains(path) {
                let w = choose|w: int|
                    0 <= w < front.len() && first_error(#[trigger] front[w].entries@) is None
                        && files_with(front[w].entries@, "proto"@).contains(path);
                assert(walks[w] == front[w]);
            } else {
                let files = files_with(last.entries@, "proto"@);
                let k = collected(walks).index_of(path);
                assert(files[k - before.len()] == path);
                assert(walks[walks.len() - 1] == last);
            }
        }
        if exists|w: int|
            0 <= w < walks.len() && first_error(#[trigger] walks[w].entries@) is None && files_with(
                walks[w].entries@,
                "proto"@,
            ).contains(path) {
            let w = choose|w: int|
                0 <= w < walks.len() && first_error(#[trigger] walks[w].entries@) is None
                    && files_with(walks[w].entries@, "proto"@).contains(path);
            if w < front.len() {
                assert(front[w] == walks[w]);
                let k = before.index_of(path);
                assert(collected(walks)[k] == path);
            } else {
                let k = files_with(last.entries@, "proto"@).index_of(path);
                assert(collected(walks)[before.len() + k] == path);
            }
        }
    }
}

/// What stands behind the last dot of a name is its extension, however long the name is. Something
/// must stand before the dot, and the name must not be that of the parent directory.
pub proof fn law_extension_is_behind_the_last_dot(stem: Seq<char>, ext: Seq<char>)
    requires
        stem.len() > 0,
        !ext.contains('.'),
        stem + seq!['.'] + ext != seq!['.', '.'],
    ensures
        extension(stem + seq!['.'] + ext) == Some(ext),
{
    let name = stem + seq!['.'] + ext;
    reveal_strlit("..");
    assert(".."@ =~= seq!['.', '.']);
    lemma_last_dot(stem, ext);
    assert(name.skip(stem.len() as int + 1) =~= ext);
}

proof fn lemma_last_dot(stem: Seq<char>, ext: Seq<char>)
    requires
        !ext.contains('.'),
    ensures
        last_dot(stem + seq!['.'] + ext) == stem.len(),
    decreases ext.len(),
{
    let name = stem + seq!['.'] + ext;
    if ext.len() > 0 {
        assert(ext.contains(ext.last()));
        assert(name.last() == ext.last());
        assert(name.drop_last() =~= stem + seq!['.'] + ext.drop_last());
        assert forall|c: char| ext.drop_last().contains(c) implies ext.contains(c) by {
            let k = ext.drop_last().index_of(c);
            assert(ext[k] == c);
        }
        lemma_last_dot(stem, ext.drop_last());
    } else {
        assert(name.last() == '.');
    }
}

/// A name without a dot behind its first character has no extension, nor has the name of the parent
/// directory.
pub proof fn law_no_other_extension(name: Seq<char>)
    requires
        (forall|i: int| 1 <= i < name.len() ==> #[trigger] name[i] != '.') || name == seq!['.', '.'],
    ensures
        extension(name) is None,
{
    reveal_strlit("..");
    assert(".."@ =~= seq!['.', '.']);
    if name != seq!['.', '.'] {
        lemma_no_inner_dot(name);
    }
}

proof fn lemma_no_inner_dot(name: Seq<char>)
    requires
        forall|i: int| 1 <= i < name.len() ==> #[trigger] name[i] != '.',
    ensures
        last_dot(name) <= 0,
    decreases name.len(),
{
    if name.len() > 1 {
        assert forall|i: int| 1 <= i < name.drop_last().len() implies #[trigger] name.drop_last()[i]
            != '.' by {
            assert(name[i] != '.');
        }
        assert(name[name.len() - 1] != '.');
        lemma_no_inner_dot(name.drop_last());
    } else if name.len() == 1 {
        assert(last_dot(name.drop_last()) == -1);
    }
}

/// A name with the extension `ext` is something, a dot, and `ext`.
proof fn lemma_named_with(name: Seq<char>, ext: Seq<char>)
    requires
        extension(name) == Some(ext),
    ensures
        exists|stem: Seq<char>| stem.len() > 0 && name == #[trigger] (stem + seq!['.'] + ext),
{
    lemma_dot_at(name);
    let d = last_dot(name);
    let stem = name.take(d);
    assert(name =~= stem + seq!['.'] + ext);
}

proof fn lemma_dot_at(name: Seq<char>)
    ensures
        -1 <= last_dot(name) < name.len(),
        last_dot(name) >= 0 ==> name[last_dot(name)] == '.',
    decreases name.len(),
{
    if name.len() > 0 && name.last() != '.' {
        lemma_dot_at(name.drop_last());
    }
}

/// What is selected from one walk and then another is what is selected from each, in this order.
pub proof fn law_files_are_selected_in_order<P>(
    a: Seq<Result<Entry<P>, String>>,
    b: Seq<Result<Entry<P>, String>>,
    ext: Seq<char>,
)
    ensures
        files_with(a + b, ext) == files_with(a, ext) + files_with(b, ext),
    decreases b.len(),
{
    if b.len() == 0 {
        assert(a + b =~= a);
        assert(files_with(a, ext) + files_with(b, ext) =~= files_with(a, ext));
    } else {
        assert((a + b).drop_last() =~= a + b.drop_last());
        assert((a + b).last() == b.last());
        law_files_are_selected_in_order(a, b.drop_last(), ext);
        assert(files_with(a + b, ext) =~= files_with(a, ext) + files_with(b, ext));
    }
}

/// A regular file whose name is something, a dot, and the extension is selected, however long the
/// name is.
pub proof fn law_file_with_extension_is_selected<P>(
    entry: Entry<P>,
    stem: Seq<char>,
    ext: Seq<char>,
)
    requires
        entry.is_file,
        stem.len() > 0,
        ext.len() > 0,
        !ext.contains('.'),
        entry.name@ == stem + seq!['.'] + ext,
    ensures
        files_with(seq![Ok::<Entry<P>, String>(entry)], ext) == seq![entry.path],
{
    let items = seq![Ok::<Entry<P>, String>(entry)];
    assert(entry.name@.len() > 2);
    law_extension_is_behind_the_last_dot(stem, ext);
    assert(files_with(items.drop_last(), ext) =~= Seq::empty());
    assert(files_with(items, ext) =~= seq![entry.path]);
}

/// Nothing else is selected: no error, nothing that is not a regular file, and no file under
/// another name.
pub proof fn law_nothing_else_is_selected<P>(item: Result<Entry<P>, String>, ext: Seq<char>)
    requires
        item matches Ok(entry) ==> !entry.is_file || (forall|stem: Seq<char>|
            stem.len() > 0 ==> entry.name@ != #[trigger] (stem + seq!['.'] + ext)),
    ensures
        files_with(seq![item], ext) == Seq::<P>::empty(),
{
    let items = seq![item];
    if is_file_with(item, ext) {
        lemma_named_with(item->Ok_0.name@, ext);
    }
    assert(files_with(items.drop_last(), ext) =~= Seq::empty());
}

/// What is collected, and what is reported, goes tree by tree.
pub proof fn law_trees_are_collected_in_order<P>(a: Seq<Walk<P>>, b: Seq<Walk<P>>)
    ensures
        collected(a + b) == collected(a) + collected(b),
        failures(a + b) == failures(a) + failures(b),
    decreases b.len(),
{
    if b.len() == 0 {
        assert(a + b =~= a);
        assert(collected(a) + collected(b) =~= collected(a));
        assert(failures(a) + failures(b) =~= failures(a));
    } else {
        assert((a + b).drop_last() =~= a + b.drop_last());
        assert((a + b).last() == b.last());
        law_trees_are_collected_in_order(a, b.drop_last());
        assert(collected(a + b) =~= collected(a) + collected(b));
        assert(failures(a + b) =~= failures(a) + failures(b));
    }
}

/// Of a tree that was walked without an error all files with the extension `proto` are collected,
/// in the order of the walk, and nothing is reported.
pub proof fn law_clean_tree_is_collected<P>(walk: Walk<P>)
    requires
        forall|i: int| 0 <= i < walk.entries@.len() ==> #[trigger] walk.entries@[i] is Ok,
    ensures
        collected(seq![walk]) == files_with(walk.entries@, "proto"@),
        failures(seq![walk]) == Seq::<WalkFailureView>::empty(),
{
    let walks = seq![walk];
    lemma_no_error(walk.entries@);
    assert(collected(walks.drop_last()) =~= Seq::empty());
    assert(collected(walks) =~= files_with(walk.entries@, "proto"@));
    assert(failures(walks.drop_last()) =~= Seq::empty());
}

proof fn lemma_no_error<P>(items: Seq<Result<Entry<P>, String>>)
    requires
        forall|i: int| 0 <= i < items.len() ==> #[trigger] items[i] is Ok,
    ensures
        first_error(items) is None,
    decreases items.len(),
{
    if items.len() > 0 {
        assert(items[0] is Ok);
        assert forall|i: int| 0 <= i < items.skip(1).len() implies #[trigger] items.skip(1)[i] is Ok by {
            assert(items[i + 1] is Ok);
        }
        lemma_no_error(items.skip(1));
    }
}

/// Of a tree with an error anywhere nothing is collected, and the tree is reported with its first
/// error.
pub proof fn law_failed_tree_is_reported<P>(walk: Walk<P>, k: int)
    requires
        0 <= k < walk.entries@.len(),
        walk.entries@[k] is Err,
        forall|i: int| 0 <= i < k ==> #[trigger] walk.entries@[i] is Ok,
    ensures
        collected(seq![walk]) == Seq::<P>::empty(),
        failures(seq![walk]) == seq![
            (WalkFailureView { root: walk.root@, error: walk.entries@[k]->Err_0@ }),
        ],
{
    let walks = seq![walk];
    lemma_error_at(walk.entries@, k);
    assert(collected(walks.drop_last()) =~= Seq::empty());
    assert(failures(walks.drop_last()) =~= Seq::empty());
    assert(failures(walks) =~= seq![
        (WalkFailureView { root: walk.root@, error: walk.entries@[k]->Err_0@ }),
    ]);
}

proof fn lemma_error_at<P>(items: Seq<Result<Entry<P>, String>>, k: int)
    requires
        0 <= k < items.len(),
        items[k] is Err,
        forall|i: int| 0 <= i < k ==> #[trigger] items[i] is Ok,
    ensures
        first_error(items) == Some(items[k]->Err_0@),
    decreases items.len(),
{
    if k > 0 {
        assert(items[0] is Ok);
        assert forall|i: int| 0 <= i < k - 1 implies #[trigger] items.skip(1)[i] is Ok by {
            assert(items[i + 1] is Ok);
        }
        lemma_error_at(items.skip(1), k - 1);
    }
}

/// Every regular file whose name is something with `.proto` behind it is collected, however long the
/// name is and wherever it stands, if its tree was walked without an error.
pub proof fn law_every_proto_is_collected<P>(
    walks: Seq<Walk<P>>,
    w: int,
    i: int,
    stem: Seq<char>,
)
    requires
        0 <= w < walks.len(),
        0 <= i < walks[w].entries@.len(),
        forall|k: int| 0 <= k < walks[w].entries@.len() ==> #[trigger] walks[w].entries@[k] is Ok,
        walks[w].entries@[i]->Ok_0.is_file,
        stem.len() > 0,
        walks[w].entries@[i]->Ok_0.name@ == stem + ".proto"@,
    ensures
        collected(walks).contains(walks[w].entries@[i]->Ok_0.path),
{
    let items = walks[w].entries@;
    let entry = items[i]->Ok_0;
    assert(items[i] is Ok);
    reveal_strlit(".proto");
    reveal_strlit("proto");
    assert(stem + ".proto"@ =~= stem + seq!['.'] + "proto"@);
    law_extension_is_behind_the_last_dot(stem, "proto"@);
    lemma_no_error(items);
    law_selected_files(items, "proto"@, entry.path);
    assert(is_file_with(items[i], "proto"@));
    law_collected_protos(walks, entry.path);
}

/// The lists that are handed over hold what they refer to, one for one and in order.
pub proof fn law_lists_hold_their_items<P>(list: Seq<&P>, failed: Seq<WalkFailure>)
    ensures
        targets(list).len() == list.len(),
        forall|i: int| 0 <= i < list.len() ==> #[trigger] targets(list)[i] == *list[i],
        failure_views(failed).len() == failed.len(),
        forall|i: int|
            0 <= i < failed.len() ==> (#[trigger] failure_views(failed)[i]).root
                == failed[i].root@ && failure_views(failed)[i].error == failed[i].error@,
{
}

} // verus!
