//! The list of files as a tree: a row for each directory and each file.
use crate::ordmap;
use crate::ordmap::OrdMap;
use crate::session;
use crate::session::{FileEntry, FileEntryView};
use crate::text;
use vstd::prelude::*;

verus! {

/// A row of the tree: a directory, or a file with its index in the list.
#[derive(Debug)]
pub struct FileTreeRow {
    pub label: String,
    pub file_index: Option<usize>,
    pub is_dir: bool,
}

/// What a row of the tree holds.
pub struct TreeRowView {
    pub label: Seq<char>,
    pub file_index: Option<usize>,
    pub is_dir: bool,
}

impl View for FileTreeRow {
    type V = TreeRowView;

    open spec fn view(&self) -> TreeRowView {
        TreeRowView { label: self.label@, file_index: self.file_index, is_dir: self.is_dir }
    }
}

/// What some rows of the tree hold.
pub open spec fn tree_views(v: Seq<FileTreeRow>) -> Seq<TreeRowView> {
    v.map_values(|r: FileTreeRow| r@)
}

/// The rows of the tree, and for each file of the list its row.
#[derive(Debug)]
pub struct FileTreeView {
    pub rows: Vec<FileTreeRow>,
    pub file_to_row: Vec<usize>,
}

/// A file of the tree: the names on the way to it, its own last, and its index
/// in the list.
pub struct ItemView {
    pub parts: Seq<Seq<char>>,
    pub index: usize,
}

/// The files of a list by their paths; of two with one path the later stands.
pub open spec fn index_map(paths: Seq<Seq<char>>) -> Map<Seq<char>, usize>
    decreases paths.len(),
{
    if paths.len() == 0 {
        Map::empty()
    } else {
        index_map(paths.drop_last()).insert(paths.last(), (paths.len() - 1) as usize)
    }
}

/// The paths of some files.
pub open spec fn paths_of(files: Seq<FileEntry>) -> Seq<Seq<char>> {
    files.map_values(|e: FileEntry| e.path@)
}

/// A path and an index as a file of the tree.
pub open spec fn item_of(p: (Seq<char>, usize)) -> ItemView {
    ItemView { parts: text::split_of(p.0, '/'), index: p.1 }
}

/// The files of the tree, in the order of their paths.
pub open spec fn items_of(paths: Seq<Seq<char>>) -> Seq<ItemView> {
    ordmap::ordered::<String, usize>(index_map(paths)).map_values(
        |p: (Seq<char>, usize)| item_of(p),
    )
}

/// The lines in front of a row: a column for each directory above it, which
/// goes on or has ended, and the branch to the row itself.
pub open spec fn tree_prefix_text(stack: Seq<bool>, is_last: bool) -> Seq<char> {
    columns_text(stack) + (if is_last {
        "└─ "@
    } else {
        "├─ "@
    })
}

/// A column for each directory above a row.
pub open spec fn columns_text(stack: Seq<bool>) -> Seq<char>
    decreases stack.len(),
{
    if stack.len() == 0 {
        seq![]
    } else {
        columns_text(stack.drop_last()) + (if stack.last() {
            "   "@
        } else {
            "│  "@
        })
    }
}

/// The label of a row: its name, behind the lines that lead to it. No lines
/// are drawn at the top.
pub open spec fn row_label(name: Seq<char>, stack: Seq<bool>, is_last: bool, is_root: bool) -> Seq<
    char,
> {
    if is_root {
        name
    } else {
        tree_prefix_text(stack, is_last) + name
    }
}

/// How many files at the start lie in the directory that the first lies in.
pub open spec fn dir_len(items: Seq<ItemView>, name: Seq<char>, depth: nat) -> nat
    decreases items.len(),
{
    if items.len() > 0 && items[0].parts.len() > depth + 1 && items[0].parts[depth as int]
        == name {
        1 + dir_len(items.drop_first(), name, depth)
    } else {
        0
    }
}

proof fn lemma_dir_len(items: Seq<ItemView>, name: Seq<char>, depth: nat)
    ensures
        dir_len(items, name, depth) <= items.len(),
        forall|i: int|
            0 <= i < dir_len(items, name, depth) ==> (#[trigger] items[i]).parts.len() > depth + 1
                && items[i].parts[depth as int] == name,
    decreases items.len(),
{
    if items.len() > 0 && items[0].parts.len() > depth + 1 && items[0].parts[depth as int]
        == name {
        let t = items.drop_first();
        lemma_dir_len(t, name, depth);
        assert forall|i: int| 0 <= i < dir_len(items, name, depth) implies (
        #[trigger] items[i]).parts.len() > depth + 1 && items[i].parts[depth as int] == name by {
            if i > 0 {
                assert(items[i] == t[i - 1]);
            }
        }
    }
}

/// How many names of the first file are still to be shown.
pub open spec fn depth_left(items: Seq<ItemView>, depth: nat) -> int {
    if items.len() > 0 && items[0].parts.len() > depth {
        items[0].parts.len() - depth
    } else {
        0
    }
}

/// The rows for files of one directory, in order: a file by its name, a
/// directory by its name and a slash, with the rows of what lies in it below.
/// `stack` says of each directory above, but the topmost, whether it was the
/// last of its own.
pub open spec fn tree_rows(
    items: Seq<ItemView>,
    depth: nat,
    stack: Seq<bool>,
    is_root: bool,
) -> Seq<TreeRowView>
    decreases items.len(), depth_left(items, depth),
    via tree_rows_decreases
{
    if items.len() == 0 {
        seq![]
    } else if items[0].parts.len() <= depth + 1 {
        let is_last = items.len() == 1;
        seq![
            TreeRowView {
                label: row_label(items[0].parts.last(), stack, is_last, is_root),
                file_index: Some(items[0].index),
                is_dir: false,
            },
        ] + tree_rows(items.drop_first(), depth, stack, is_root)
    } else {
        let name = items[0].parts[depth as int];
        let n = dir_len(items, name, depth) as int;
        let is_last = n == items.len();
        seq![
            TreeRowView {
                label: row_label(name.push('/'), stack, is_last, is_root),
                file_index: None,
                is_dir: true,
            },
        ] + tree_rows(
            items.take(n),
            depth + 1,
            if is_root {
                stack
            } else {
                stack.push(is_last)
            },
            false,
        ) + tree_rows(items.skip(n), depth, stack, is_root)
    }
}

#[via_fn]
proof fn tree_rows_decreases(
    items: Seq<ItemView>,
    depth: nat,
    stack: Seq<bool>,
    is_root: bool,
) {
    if items.len() > 0 && items[0].parts.len() > depth + 1 {
        let name = items[0].parts[depth as int];
        lemma_dir_len(items, name, depth);
        let n = dir_len(items, name, depth) as int;
        assert(n > 0);
        assert(items.take(n)[0] == items[0]);
    }
}

/// The row of the file `i`: the last that shows it, or the first row where none does.
pub open spec fn row_of_file(rows: Seq<TreeRowView>, i: usize) -> int
    decreases rows.len(),
{
    if rows.len() == 0 {
        0
    } else if rows.last().file_index == Some(i) {
        rows.len() - 1
    } else {
        row_of_file(rows.drop_last(), i)
    }
}

/// The lines in front of a row.
pub fn tree_prefix(stack: &Vec<bool>, is_last: bool) -> (out: String)
    ensures
        out@ == tree_prefix_text(stack@, is_last),
{
    let mut out = String::new();
    let mut i: usize = 0;
    assert(stack@.take(0) =~= Seq::empty());
    while i < stack.len()
        invariant
            i <= stack.len(),
            out@ == columns_text(stack@.take(i as int)),
        decreases stack.len() - i,
    {
        assert(stack@.take(i + 1).drop_last() =~= stack@.take(i as int));
        if stack[i] {
            out.append("   ");
        } else {
            out.append("│  ");
        }
        i += 1;
    }
    assert(stack@.take(i as int) =~= stack@);
    if is_last {
        out.append("└─ ");
    } else {
        out.append("├─ ");
    }
    out
}

fn label_of(name: &str, slash: bool, stack: &Vec<bool>, is_last: bool, is_root: bool) -> (out:
    String)
    ensures
        out@ == row_label(
            if slash {
                name@.push('/')
            } else {
                name@
            },
            stack@,
            is_last,
            is_root,
        ),
{
    let mut out = if is_root {
        String::new()
    } else {
        tree_prefix(stack, is_last)
    };
    out.append(name);
    if slash {
        out.push('/');
    }
    assert(out@ =~= row_label(
        if slash {
            name@.push('/')
        } else {
            name@
        },
        stack@,
        is_last,
        is_root,
    ));
    out
}

struct Item {
    parts: Vec<String>,
    index: usize,
}

impl View for Item {
    type V = ItemView;

    closed spec fn view(&self) -> ItemView {
        ItemView { parts: text::views(self.parts@), index: self.index }
    }
}

spec fn item_views(v: Seq<Item>) -> Seq<ItemView> {
    v.map_values(|i: Item| i@)
}

/// The end of the files that lie in the directory `name`, from `from` on.
fn dir_end(items: &Vec<Item>, from: usize, to: usize, depth: usize) -> (end: usize)
    requires
        from < to <= items@.len(),
        items@[from as int].parts@.len() > depth + 1,
    ensures
        from < end <= to,
        end - from == dir_len(
            item_views(items@).subrange(from as int, to as int),
            items@[from as int].parts@[depth as int]@,
            depth as nat,
        ),
{
    let ghost v = item_views(items@);
    let name = items[from].parts[depth].clone();
    assert(items@[from as int].parts.len() > depth + 1);
    let mut i: usize = from;
    while i < to && items[i].parts.len() > depth + 1 && text::same(
        items[i].parts[depth].as_str(),
        name.as_str(),
    )
        invariant
            from <= i <= to <= items@.len(),
            v == item_views(items@),
            depth < usize::MAX,
            items@[from as int].parts@.len() > depth + 1,
            name@ == items@[from as int].parts@[depth as int]@,
            dir_len(v.subrange(from as int, to as int), name@, depth as nat) == (i - from)
                + dir_len(v.subrange(i as int, to as int), name@, depth as nat),
        decreases to - i,
    {
        proof {
            let rest = v.subrange(i as int, to as int);
            assert(rest[0] == items@[i as int]@);
            assert(rest[0].parts[depth as int] == items@[i as int].parts@[depth as int]@);
            assert(rest.drop_first() =~= v.subrange(i + 1, to as int));
        }
        i += 1;
    }
    proof {
        let rest = v.subrange(i as int, to as int);
        if i < to {
            assert(rest[0] == items@[i as int]@);
            if items@[i as int].parts@.len() > depth + 1 {
                assert(rest[0].parts[depth as int] == items@[i as int].parts@[depth as int]@);
            }
        }
        assert(dir_len(rest, name@, depth as nat) == 0);
        let whole = v.subrange(from as int, to as int);
        assert(whole[0] == items@[from as int]@);
        assert(whole[0].parts[depth as int] == name@);
        assert(dir_len(whole, name@, depth as nat) > 0);
    }
    i
}

/// Adds the rows for the files `from..to`, which lie in one directory.
fn walk_node(
    items: &Vec<Item>,
    from: usize,
    to: usize,
    depth: usize,
    stack: &mut Vec<bool>,
    is_root: bool,
    rows: &mut Vec<FileTreeRow>,
)
    requires
        from <= to <= items@.len(),
        forall|i: int| from <= i < to ==> (#[trigger] items@[i]).parts@.len() > depth,
    ensures
        final(stack)@ == old(stack)@,
        tree_views(final(rows)@) == tree_views(old(rows)@) + tree_rows(
            item_views(items@).subrange(from as int, to as int),
            depth as nat,
            old(stack)@,
            is_root,
        ),
    decreases
            to - from,
            depth_left(item_views(items@).subrange(from as int, to as int), depth as nat),
{
    let ghost v = item_views(items@);
    let ghost start = tree_views(rows@);
    let ghost st = stack@;
    let ghost all = tree_rows(v.subrange(from as int, to as int), depth as nat, st, is_root);
    let mut i: usize = from;
    while i < to
        invariant
            from <= i <= to <= items@.len(),
            v == item_views(items@),
            forall|k: int| from <= k < to ==> (#[trigger] items@[k]).parts@.len() > depth,
            stack@ == st,
            tree_views(rows@) + tree_rows(
                v.subrange(i as int, to as int),
                depth as nat,
                st,
                is_root,
            ) == start + all,
        decreases to - i,
    {
        let ghost rest = v.subrange(i as int, to as int);
        let ghost before = tree_views(rows@);
        assert(rest[0] == items@[i as int]@);
        assert(items@[i as int].parts@.len() > depth);
        let count: usize = items[i].parts.len();
        if count == depth + 1 {
            let is_last = i + 1 == to;
            let r = FileTreeRow {
                label: label_of(
                    items[i].parts[depth].as_str(),
                    false,
                    stack,
                    is_last,
                    is_root,
                ),
                file_index: Some(items[i].index),
                is_dir: false,
            };
            proof {
                assert(rest[0].parts.last() == items@[i as int].parts@[depth as int]@);
                assert(rest.drop_first() =~= v.subrange(i + 1, to as int));
            }
            rows.push(r);
            proof {
                assert(tree_views(rows@) =~= before.push(r@));
                let next = tree_rows(v.subrange(i + 1, to as int), depth as nat, st, is_root);
                assert(before + (seq![r@] + next) =~= before.push(r@) + next);
            }
            i += 1;
        } else {
            let end: usize = dir_end(items, i, to, depth);
            let is_last = end == to;
            let ghost name = items@[i as int].parts@[depth as int]@;
            let r = FileTreeRow {
                label: label_of(
                    items[i].parts[depth].as_str(),
                    true,
                    stack,
                    is_last,
                    is_root,
                ),
                file_index: None,
                is_dir: true,
            };
            proof {
                assert(rest[0].parts[depth as int] == name);
                lemma_dir_len(rest, name, depth as nat);
                assert(rest.take(end - i) =~= v.subrange(i as int, end as int));
                assert(rest.skip(end - i) =~= v.subrange(end as int, to as int));
                assert forall|k: int| i <= k < end implies (
                #[trigger] items@[k]).parts@.len() > depth + 1 by {
                    assert(rest[k - i] == items@[k]@);
                }
                assert(v.subrange(i as int, end as int)[0] == items@[i as int]@);
            }
            rows.push(r);
            assert(tree_views(rows@) =~= before.push(r@));
            if !is_root {
                stack.push(is_last);
            }
            let ghost inner_stack = stack@;
            walk_node(items, i, end, depth + 1, stack, false, rows);
            if !is_root {
                stack.pop();
                assert(stack@ =~= st);
            }
            proof {
                let inner = tree_rows(
                    v.subrange(i as int, end as int),
                    depth as nat + 1,
                    inner_stack,
                    false,
                );
                let next = tree_rows(v.subrange(end as int, to as int), depth as nat, st, is_root);
                assert(tree_rows(rest, depth as nat, st, is_root) == seq![r@] + inner + next);
                assert(before + (seq![r@] + inner + next) =~= before.push(r@) + inner + next);
            }
            i = end;
        }
    }
    proof {
        assert(v.subrange(i as int, to as int) =~= Seq::empty());
        assert(tree_views(rows@) + Seq::<TreeRowView>::empty() =~= tree_views(rows@));
    }
}

fn index_by_path(files: &Vec<FileEntry>) -> (out: OrdMap<String, usize>)
    ensures
        out@ == index_map(paths_of(files@)),
{
    let ghost p = paths_of(files@);
    let mut out = OrdMap::<String, usize>::new();
    let mut i: usize = 0;
    assert(p.take(0) =~= Seq::empty());
    while i < files.len()
        invariant
            i <= files.len() == p.len(),
            p == paths_of(files@),
            out@ == index_map(p.take(i as int)),
        decreases files.len() - i,
    {
        assert(p.take(i + 1).drop_last() =~= p.take(i as int));
        out.insert(files[i].path.clone(), i);
        i += 1;
    }
    assert(p.take(i as int) =~= p);
    out
}

impl FileTreeView {
    /// The tree of a list of files.
    pub fn build(files: &Vec<FileEntry>) -> (out: FileTreeView)
        ensures
            tree_views(out.rows@) == tree_rows(items_of(paths_of(files@)), 0, seq![], true),
            out.file_to_row@.len() == files@.len(),
            forall|i: int|
                0 <= i < files@.len() ==> #[trigger] out.file_to_row@[i] == row_of_file(
                    tree_views(out.rows@),
                    i as usize,
                ),
    {
        let map = index_by_path(files);
        let n: usize = map.len();
        let ghost o = ordmap::ordered::<String, usize>(map@);
        let ghost want = items_of(paths_of(files@));
        let mut items: Vec<Item> = Vec::new();
        let mut i: usize = 0;
        while i < n
            invariant
                i <= n == o.len(),
                o == ordmap::ordered::<String, usize>(map@),
                want == o.map_values(|p: (Seq<char>, usize)| item_of(p)),
                item_views(items@) =~= want.take(i as int),
                forall|k: int| 0 <= k < items@.len() ==> (#[trigger] items@[k]).parts@.len() > 0,
            decreases n - i,
        {
            let ghost before = item_views(items@);
            let item = Item {
                parts: text::split(map.key_at(i).as_str(), '/'),
                index: *map.val_at(i),
            };
            items.push(item);
            proof {
                assert(item@ == want[i as int]);
                assert(item_views(items@) =~= before.push(item@));
                assert(want.take(i + 1) =~= want.take(i as int).push(want[i as int]));
            }
            i += 1;
        }
        assert(want.take(n as int) =~= want);
        let mut rows: Vec<FileTreeRow> = Vec::new();
        let mut stack: Vec<bool> = Vec::new();
        assert(item_views(items@).subrange(0, items@.len() as int) =~= want);
        walk_node(&items, 0, items.len(), 0, &mut stack, true, &mut rows);
        assert(tree_views(rows@) =~= tree_rows(want, 0, seq![], true));
        let mut file_to_row: Vec<usize> = Vec::new();
        i = 0;
        while i < files.len()
            invariant
                i <= files.len(),
                file_to_row@ =~= Seq::new(i as nat, |k: int| 0usize),
            decreases files.len() - i,
        {
            file_to_row.push(0);
            i += 1;
        }
        let ghost v = tree_views(rows@);
        let mut r: usize = 0;
        assert(v.take(0) =~= Seq::empty());
        while r < rows.len()
            invariant
                r <= rows.len() == v.len(),
                v == tree_views(rows@),
                file_to_row@.len() == files@.len(),
                forall|k: int|
                    0 <= k < files@.len() ==> #[trigger] file_to_row@[k] == row_of_file(
                        v.take(r as int),
                        k as usize,
                    ),
            decreases rows.len() - r,
        {
            assert(v.take(r + 1).drop_last() =~= v.take(r as int));
            assert(v.take(r + 1).last() == rows@[r as int]@);
            match rows[r].file_index {
                Some(k) => {
                    if k < file_to_row.len() {
                        file_to_row.set(k, r);
                    }
                },
                None => {},
            }
            r += 1;
        }
        assert(v.take(r as int) =~= v);
        FileTreeView { rows, file_to_row }
    }

    /// The row of the file at `file_index` of the list.
    pub fn selected_row(&self, file_index: usize) -> (r: Option<usize>)
        ensures
            r == (if file_index < self.file_to_row@.len() {
                Some(self.file_to_row@[file_index as int])
            } else {
                None
            }),
    {
        if file_index < self.file_to_row.len() {
            Some(self.file_to_row[file_index])
        } else {
            None
        }
    }

    /// The index in the list of the file in a row.
    pub fn file_at_row(&self, row: usize) -> (r: Option<usize>)
        ensures
            r == (if row < self.rows@.len() {
                self.rows@[row as int].file_index
            } else {
                None
            }),
    {
        if row < self.rows.len() {
            self.rows[row].file_index
        } else {
            None
        }
    }
}

impl Default for FileTreeView {
    fn default() -> (r: Self)
        ensures
            r.rows@.len() == 0,
            r.file_to_row@.len() == 0,
    {
        FileTreeView { rows: Vec::new(), file_to_row: Vec::new() }
    }
}

/// Each file of the tree has a row.
proof fn lemma_rows_show(
    items: Seq<ItemView>,
    depth: nat,
    stack: Seq<bool>,
    is_root: bool,
    k: int,
) -> (r: int)
    requires
        0 <= k < items.len(),
    ensures
        0 <= r < tree_rows(items, depth, stack, is_root).len(),
        tree_rows(items, depth, stack, is_root)[r].file_index == Some(items[k].index),
    decreases items.len(), depth_left(items, depth),
{
    let rows = tree_rows(items, depth, stack, is_root);
    if items[0].parts.len() <= depth + 1 {
        if k == 0 {
            0
        } else {
            assert(items.drop_first()[k - 1] == items[k]);
            let r = lemma_rows_show(items.drop_first(), depth, stack, is_root, k - 1);
            r + 1
        }
    } else {
        let name = items[0].parts[depth as int];
        lemma_dir_len(items, name, depth);
        let n = dir_len(items, name, depth) as int;
        assert(items.take(n)[0] == items[0]);
        let inner_stack = if is_root {
            stack
        } else {
            stack.push(n == items.len())
        };
        let inner = tree_rows(items.take(n), depth + 1, inner_stack, false);
        if k < n {
            assert(items.take(n)[k] == items[k]);
            let r = lemma_rows_show(items.take(n), depth + 1, inner_stack, false, k);
            assert(rows[r + 1] == inner[r]);
            r + 1
        } else {
            assert(items.skip(n)[k - n] == items[k]);
            let r = lemma_rows_show(items.skip(n), depth, stack, is_root, k - n);
            assert(rows[r + 1 + inner.len()] == tree_rows(items.skip(n), depth, stack, is_root)[r]);
            r + 1 + inner.len() as int
        }
    }
}

proof fn lemma_row_of_file(rows: Seq<TreeRowView>, i: usize, r: int)
    requires
        0 <= r < rows.len(),
        rows[r].file_index == Some(i),
    ensures
        0 <= row_of_file(rows, i) < rows.len(),
        rows[row_of_file(rows, i)].file_index == Some(i),
    decreases rows.len(),
{
    if rows.last().file_index != Some(i) {
        assert(rows.drop_last()[r] == rows[r]);
        lemma_row_of_file(rows.drop_last(), i, r);
    }
}

proof fn lemma_index_map(paths: Seq<Seq<char>>, i: int)
    requires
        0 <= i < paths.len() <= usize::MAX,
        forall|j: int| i < j < paths.len() ==> #[trigger] paths[j] != paths[i],
    ensures
        index_map(paths).contains_key(paths[i]),
        index_map(paths)[paths[i]] == i,
    decreases paths.len(),
{
    if i < paths.len() - 1 {
        let front = paths.drop_last();
        assert forall|j: int| i < j < front.len() implies #[trigger] front[j] != front[i] by {
            assert(front[j] == paths[j]);
        }
        lemma_index_map(front, i);
        assert(paths[paths.len() - 1] != paths[i]);
    }
}

/// The files of a list can be put in order.
proof fn lemma_index_map_ordered(paths: Seq<Seq<char>>) -> (e: Seq<(Seq<char>, usize)>)
    ensures
        ordmap::increasing::<String, usize>(e),
        ordmap::map_of(e) == index_map(paths),
    decreases paths.len(),
{
    if paths.len() == 0 {
        ordmap::lemma_map_of_empty::<String, usize>();
        Seq::empty()
    } else {
        let e = lemma_index_map_ordered(paths.drop_last());
        ordmap::lemma_order_insert::<String, usize>(
            e,
            paths.last(),
            (paths.len() - 1) as usize,
        )
    }
}

/// Where no two files have one path, the row of each file shows that file.
pub proof fn law_row_shows_its_file(paths: Seq<Seq<char>>, i: int)
    requires
        0 <= i < paths.len() <= usize::MAX,
        forall|a: int, b: int| 0 <= a < b < paths.len() ==> paths[a] != paths[b],
    ensures
        ({
            let rows = tree_rows(items_of(paths), 0, seq![], true);
            let r = row_of_file(rows, i as usize);
            0 <= r < rows.len() && rows[r].file_index == Some(i as usize)
        }),
{
    let e = lemma_index_map_ordered(paths);
    ordmap::lemma_ordered_is::<String, usize>(e);
    lemma_index_map(paths, i);
    let k = ordmap::index_of_key(e, paths[i]);
    ordmap::lemma_map_of_at::<String, usize>(e, k);
    let items = items_of(paths);
    assert(items[k] == item_of(e[k]));
    let r = lemma_rows_show(items, 0, seq![], true, k);
    lemma_row_of_file(tree_rows(items, 0, seq![], true), i as usize, r);
}

/// The files that some rows show, from the first on.
spec fn listed(rows: Seq<TreeRowView>) -> Seq<usize>
    decreases rows.len(),
{
    if rows.len() == 0 {
        seq![]
    } else {
        match rows.last().file_index {
            Some(i) => listed(rows.drop_last()).push(i),
            None => listed(rows.drop_last()),
        }
    }
}

/// How many of some rows are directories.
spec fn dir_rows(rows: Seq<TreeRowView>) -> nat
    decreases rows.len(),
{
    if rows.len() == 0 {
        0
    } else if rows.last().is_dir {
        dir_rows(rows.drop_last()) + 1
    } else {
        dir_rows(rows.drop_last())
    }
}

proof fn lemma_rows_add(a: Seq<TreeRowView>, b: Seq<TreeRowView>)
    ensures
        listed(a + b) == listed(a) + listed(b),
        dir_rows(a + b) == dir_rows(a) + dir_rows(b),
    decreases b.len(),
{
    if b.len() == 0 {
        assert(a + b =~= a);
        assert(listed(a) + listed(b) =~= listed(a));
    } else {
        assert((a + b).drop_last() =~= a + b.drop_last());
        lemma_rows_add(a, b.drop_last());
        assert(listed(a + b) =~= listed(a) + listed(b));
    }
}

proof fn lemma_one_row(r: TreeRowView)
    ensures
        listed(seq![r]) == (match r.file_index {
            Some(i) => seq![i],
            None => seq![],
        }),
        dir_rows(seq![r]) == (if r.is_dir {
            1nat
        } else {
            0nat
        }),
{
    let none: Seq<TreeRowView> = seq![];
    assert(seq![r].drop_last() =~= none);
    assert(seq![r].last() == r);
    assert(listed(none) =~= seq![]);
    assert(dir_rows(none) == 0);
    match r.file_index {
        Some(i) => {
            assert(listed(seq![r]) =~= seq![i]);
        },
        None => {},
    }
}

/// Whether the rows without a file are the directories.
spec fn are_marked(rows: Seq<TreeRowView>) -> bool {
    forall|r: int| 0 <= r < rows.len() ==> ((#[trigger] rows[r]).is_dir <==> rows[r].file_index is None)
}

proof fn lemma_marked_len(rows: Seq<TreeRowView>)
    requires
        are_marked(rows),
    ensures
        rows.len() == listed(rows).len() + dir_rows(rows),
    decreases rows.len(),
{
    if rows.len() > 0 {
        let front = rows.drop_last();
        assert forall|r: int| 0 <= r < front.len() implies ((#[trigger] front[r]).is_dir
            <==> front[r].file_index is None) by {
            assert(front[r] == rows[r]);
        }
        assert(rows[rows.len() - 1] == rows.last());
        lemma_marked_len(front);
    }
}

/// A file in a row stands behind the files in the rows above.
proof fn lemma_listed_at(rows: Seq<TreeRowView>, r: int)
    requires
        0 <= r < rows.len(),
        rows[r].file_index is Some,
    ensures
        listed(rows.take(r)).len() < listed(rows).len(),
        listed(rows)[listed(rows.take(r)).len() as int] == rows[r].file_index->0,
{
    let a = rows.take(r);
    let b = rows.skip(r + 1);
    assert(rows =~= a + seq![rows[r]] + b);
    lemma_rows_add(a + seq![rows[r]], b);
    lemma_rows_add(a, seq![rows[r]]);
    lemma_one_row(rows[r]);
}

/// Of two files in rows, the one above is listed first.
proof fn lemma_listed_order(rows: Seq<TreeRowView>, r: int, s: int)
    requires
        0 <= r < s <= rows.len(),
        rows[r].file_index is Some,
    ensures
        listed(rows.take(r)).len() < listed(rows.take(s)).len(),
{
    let t = rows.take(s);
    assert(t[r] == rows[r]);
    assert(t.take(r) =~= rows.take(r));
    lemma_listed_at(t, r);
}

/// The rows show the files of the tree in their order.
proof fn lemma_rows_listed(items: Seq<ItemView>, depth: nat, stack: Seq<bool>, is_root: bool)
    ensures
        listed(tree_rows(items, depth, stack, is_root)) == items.map_values(|i: ItemView| i.index),
        are_marked(tree_rows(items, depth, stack, is_root)),
    decreases items.len(), depth_left(items, depth),
{
    let rows = tree_rows(items, depth, stack, is_root);
    let index = |i: ItemView| i.index;
    if items.len() == 0 {
        assert(listed(rows) =~= items.map_values(index));
    } else if items[0].parts.len() <= depth + 1 {
        let rest = items.drop_first();
        let tail = tree_rows(rest, depth, stack, is_root);
        lemma_rows_listed(rest, depth, stack, is_root);
        lemma_one_row(rows[0]);
        assert(rows =~= seq![rows[0]] + tail);
        lemma_rows_add(seq![rows[0]], tail);
        assert(listed(rows) =~= items.map_values(index));
        assert forall|r: int| 0 <= r < rows.len() implies ((#[trigger] rows[r]).is_dir
            <==> rows[r].file_index is None) by {
            if r > 0 {
                assert(rows[r] == tail[r - 1]);
            }
        }
    } else {
        let name = items[0].parts[depth as int];
        lemma_dir_len(items, name, depth);
        let n = dir_len(items, name, depth) as int;
        assert(items.take(n)[0] == items[0]);
        let inner_stack = if is_root {
            stack
        } else {
            stack.push(n == items.len())
        };
        let inner = tree_rows(items.take(n), depth + 1, inner_stack, false);
        let tail = tree_rows(items.skip(n), depth, stack, is_root);
        lemma_rows_listed(items.take(n), depth + 1, inner_stack, false);
        lemma_rows_listed(items.skip(n), depth, stack, is_root);
        lemma_one_row(rows[0]);
        assert(rows =~= seq![rows[0]] + inner + tail);
        lemma_rows_add(seq![rows[0]] + inner, tail);
        lemma_rows_add(seq![rows[0]], inner);
        assert(items =~= items.take(n) + items.skip(n));
        assert(listed(rows) =~= items.map_values(index));
        assert forall|r: int| 0 <= r < rows.len() implies ((#[trigger] rows[r]).is_dir
            <==> rows[r].file_index is None) by {
            if r > inner.len() {
                assert(rows[r] == tail[r - 1 - inner.len()]);
            } else if r > 0 {
                assert(rows[r] == inner[r - 1]);
            }
        }
    }
}

/// Whether `d` is a directory on the way to the file `item`, below the first `depth`
/// of them.
spec fn leads_to(d: Seq<Seq<char>>, item: ItemView, depth: nat) -> bool {
    depth < d.len() < item.parts.len() && item.parts.take(d.len() as int) == d
}

/// The directories on the way to some files, below the first `depth`.
spec fn dirs_below(items: Seq<ItemView>, depth: nat) -> Set<Seq<Seq<char>>> {
    Set::new(
        |d: Seq<Seq<char>>|
            exists|i: int| 0 <= i < items.len() && leads_to(d, #[trigger] items[i], depth),
    )
}

/// Whether all files lie in one directory of the given depth.
spec fn are_beside(items: Seq<ItemView>, depth: nat) -> bool {
    forall|i: int|
        0 <= i < items.len() ==> (#[trigger] items[i]).parts.len() > depth && items[i].parts.take(
            depth as int,
        ) == items[0].parts.take(depth as int)
}

/// Whether the files of a directory stand together.
spec fn are_together(items: Seq<ItemView>) -> bool {
    forall|i: int, j: int, l: int, d: Seq<Seq<char>>|
        0 <= i < j < l < items.len() && #[trigger] leads_to(d, items[i], 0) && #[trigger] leads_to(
            d,
            items[l],
            0,
        ) ==> leads_to(d, #[trigger] items[j], 0)
}

proof fn lemma_part_is_so(items: Seq<ItemView>, from: int, to: int)
    requires
        0 <= from <= to <= items.len(),
        are_together(items),
    ensures
        are_together(items.subrange(from, to)),
{
    let t = items.subrange(from, to);
    assert forall|i: int, j: int, l: int, d: Seq<Seq<char>>|
        0 <= i < j < l < t.len() && #[trigger] leads_to(d, t[i], 0) && #[trigger] leads_to(
            d,
            t[l],
            0,
        ) implies leads_to(d, #[trigger] t[j], 0) by {
        assert(t[i] == items[from + i]);
        assert(t[j] == items[from + j]);
        assert(t[l] == items[from + l]);
    }
}

/// The file behind those of a directory, if any, does not lie in it.
proof fn lemma_dir_ends(items: Seq<ItemView>, name: Seq<char>, depth: nat)
    ensures
        ({
            let n = dir_len(items, name, depth) as int;
            n < items.len() ==> !(items[n].parts.len() > depth + 1 && items[n].parts[depth as int]
                == name)
        }),
    decreases items.len(),
{
    if items.len() > 0 && items[0].parts.len() > depth + 1 && items[0].parts[depth as int]
        == name {
        lemma_dir_ends(items.drop_first(), name, depth);
    }
}

/// There is one row for each directory on the way to a file.
proof fn lemma_rows_dirs(items: Seq<ItemView>, depth: nat, stack: Seq<bool>, is_root: bool)
    requires
        are_beside(items, depth),
        are_together(items),
    ensures
        dirs_below(items, depth).finite(),
        dir_rows(tree_rows(items, depth, stack, is_root)) == dirs_below(items, depth).len(),
    decreases items.len(), depth_left(items, depth), 1int,
{
    if items.len() == 0 {
        assert(dirs_below(items, depth) =~= Set::empty());
    } else if items[0].parts.len() <= depth + 1 {
        lemma_file_row(items, depth, stack, is_root);
    } else {
        lemma_dir_row(items, depth, stack, is_root);
    }
}

/// The directories of all files but a first one that lies in none.
proof fn lemma_dirs_behind(items: Seq<ItemView>, depth: nat)
    requires
        items.len() > 0,
        items[0].parts.len() <= depth + 1,
    ensures
        dirs_below(items, depth) == dirs_below(items.drop_first(), depth),
{
    let rest = items.drop_first();
    let all = dirs_below(items, depth);
    assert forall|d: Seq<Seq<char>>| all.contains(d) == dirs_below(rest, depth).contains(d) by {
        if all.contains(d) {
            let i = choose|i: int| 0 <= i < items.len() && leads_to(d, #[trigger] items[i], depth);
            assert(i > 0);
            assert(rest[i - 1] == items[i]);
        }
        if dirs_below(rest, depth).contains(d) {
            let i = choose|i: int| 0 <= i < rest.len() && leads_to(d, #[trigger] rest[i], depth);
            assert(rest[i] == items[i + 1]);
        }
    }
    assert(all =~= dirs_below(rest, depth));
}

/// The step of the one above for a file.
proof fn lemma_file_row(items: Seq<ItemView>, depth: nat, stack: Seq<bool>, is_root: bool)
    requires
        are_beside(items, depth),
        are_together(items),
        items.len() > 0,
        items[0].parts.len() <= depth + 1,
    ensures
        dirs_below(items, depth).finite(),
        dir_rows(tree_rows(items, depth, stack, is_root)) == dirs_below(items, depth).len(),
    decreases items.len(), depth_left(items, depth), 0int,
{
    let rows = tree_rows(items, depth, stack, is_root);
    let rest = items.drop_first();
    let tail = tree_rows(rest, depth, stack, is_root);
    assert(rest =~= items.subrange(1, items.len() as int));
    lemma_part_is_so(items, 1, items.len() as int);
    assert(are_beside(rest, depth)) by {
        assert forall|i: int| 0 <= i < rest.len() implies (#[trigger] rest[i]).parts.len() > depth
            && rest[i].parts.take(depth as int) == rest[0].parts.take(depth as int) by {
            assert(rest[i] == items[i + 1]);
            assert(rest[0] == items[1]);
        }
    }
    lemma_rows_dirs(rest, depth, stack, is_root);
    assert(rows =~= seq![rows[0]] + tail);
    lemma_one_row(rows[0]);
    lemma_rows_add(seq![rows[0]], tail);
    lemma_dirs_behind(items, depth);
}

/// The step of the one above for a directory.
#[verifier::spinoff_prover]
proof fn lemma_dir_row(items: Seq<ItemView>, depth: nat, stack: Seq<bool>, is_root: bool)
    requires
        are_beside(items, depth),
        are_together(items),
        items.len() > 0,
        items[0].parts.len() > depth + 1,
    ensures
        dirs_below(items, depth).finite(),
        dir_rows(tree_rows(items, depth, stack, is_root)) == dirs_below(items, depth).len(),
    decreases items.len(), depth_left(items, depth), 0int,
{
    let rows = tree_rows(items, depth, stack, is_root);
    let all = dirs_below(items, depth);
    let name = items[0].parts[depth as int];
    lemma_dir_len(items, name, depth);
    lemma_dir_ends(items, name, depth);
    let n = dir_len(items, name, depth) as int;
    let near = items.take(n);
    let far = items.skip(n);
    let inner_stack = if is_root {
        stack
    } else {
        stack.push(n == items.len())
    };
    let inner = tree_rows(near, depth + 1, inner_stack, false);
    let tail = tree_rows(far, depth, stack, is_root);
    let dir = items[0].parts.take(depth as int + 1);
    assert(near[0] == items[0]);
    assert(near =~= items.subrange(0, n));
    assert(far =~= items.subrange(n, items.len() as int));
    lemma_part_is_so(items, 0, n);
    lemma_part_is_so(items, n, items.len() as int);
    assert(are_beside(near, depth + 1)) by {
        assert forall|i: int| 0 <= i < near.len() implies (#[trigger] near[i]).parts.len() > depth
            + 1 && near[i].parts.take(depth as int + 1) == near[0].parts.take(depth as int + 1) by {
            assert(near[i] == items[i]);
            lemma_one_further(items[i].parts, items[0].parts, depth);
        }
    }
    assert(are_beside(far, depth)) by {
        assert forall|i: int| 0 <= i < far.len() implies (#[trigger] far[i]).parts.len() > depth
            && far[i].parts.take(depth as int) == far[0].parts.take(depth as int) by {
            assert(far[i] == items[n + i]);
            assert(far[0] == items[n]);
        }
    }
    lemma_rows_dirs(near, depth + 1, inner_stack, false);
    lemma_rows_dirs(far, depth, stack, is_root);
    assert(rows =~= seq![rows[0]] + inner + tail);
    lemma_one_row(rows[0]);
    lemma_rows_add(seq![rows[0]] + inner, tail);
    lemma_rows_add(seq![rows[0]], inner);
    let a = dirs_below(near, depth + 1);
    let b = dirs_below(far, depth);
    assert forall|d: Seq<Seq<char>>| a.contains(d) implies d.len() > depth + 1 && d.take(
        depth as int + 1,
    ) == dir by {
        let i = choose|i: int| 0 <= i < near.len() && leads_to(d, #[trigger] near[i], depth + 1);
        assert(near[i].parts.take(depth as int + 1) == dir);
        assert(d.take(depth as int + 1) =~= near[i].parts.take(depth as int + 1));
    }
    assert forall|d: Seq<Seq<char>>| b.contains(d) implies d.len() > depth && d.take(
        depth as int + 1,
    ) != dir by {
        let i = choose|i: int| 0 <= i < far.len() && leads_to(d, #[trigger] far[i], depth);
        assert(far[i] == items[n + i]);
        assert(d.take(depth as int + 1) =~= far[i].parts.take(depth as int + 1));
        if d.take(depth as int + 1) == dir {
            assert(leads_to(dir, items[0], 0));
            assert(leads_to(dir, items[n + i], 0));
            if i > 0 {
                assert(leads_to(dir, items[n], 0));
            }
            assert(items[n].parts[depth as int] == items[n].parts.take(depth as int + 1)[depth as int]);
            assert(dir[depth as int] == name);
        }
    }
    assert(all =~= a.insert(dir) + b) by {
        assert forall|d: Seq<Seq<char>>| all.contains(d) == (a.insert(dir) + b).contains(d) by {
            if all.contains(d) {
                let i = choose|i: int| 0 <= i < items.len() && leads_to(d, #[trigger] items[i], depth);
                if i < n {
                    assert(near[i] == items[i]);
                    if d.len() == depth + 1 {
                        assert(d == near[i].parts.take(depth as int + 1));
                    } else {
                        assert(leads_to(d, near[i], depth + 1));
                    }
                } else {
                    assert(far[i - n] == items[i]);
                }
            }
            if a.contains(d) {
                let i = choose|i: int|
                    0 <= i < near.len() && leads_to(d, #[trigger] near[i], depth + 1);
                assert(near[i] == items[i]);
                assert(leads_to(d, items[i], depth));
            }
            if b.contains(d) {
                let i = choose|i: int| 0 <= i < far.len() && leads_to(d, #[trigger] far[i], depth);
                assert(far[i] == items[n + i]);
            }
            if d == dir {
                assert(leads_to(d, items[0], depth));
            }
        }
    }
    assert(!a.contains(dir));
    assert(a.insert(dir).disjoint(b)) by {
        assert forall|d: Seq<Seq<char>>| a.insert(dir).contains(d) implies !b.contains(d) by {
            if d == dir {
                assert(d.take(depth as int + 1) =~= dir);
            }
        }
    }
    vstd::set_lib::lemma_set_disjoint_lens(a.insert(dir), b);
}

/// Where two ways agree for `n` names and in the next, they agree for one more.
proof fn lemma_one_further(a: Seq<Seq<char>>, b: Seq<Seq<char>>, n: nat)
    requires
        n < a.len(),
        n < b.len(),
        a.take(n as int) == b.take(n as int),
        a[n as int] == b[n as int],
    ensures
        a.take(n as int + 1) == b.take(n as int + 1),
{
    assert(a.take(n as int + 1) =~= a.take(n as int).push(a[n as int]));
    assert(b.take(n as int + 1) =~= b.take(n as int).push(b[n as int]));
}

/// What two texts start with, one between them starts with too.
proof fn lemma_between_starts(x: Seq<char>, y: Seq<char>, z: Seq<char>, m: nat)
    requires
        text::lex_before(x, y),
        text::lex_before(y, z),
        m <= x.len(),
        m <= z.len(),
        x.take(m as int) == z.take(m as int),
    ensures
        m <= y.len(),
        y.take(m as int) == x.take(m as int),
        text::lex_before(x.skip(m as int), y.skip(m as int)),
        text::lex_before(y.skip(m as int), z.skip(m as int)),
    decreases m,
{
    if m == 0 {
        assert(y.take(0) =~= x.take(0));
        assert(x.skip(0) =~= x);
        assert(y.skip(0) =~= y);
        assert(z.skip(0) =~= z);
    } else {
        assert(x.take(m as int)[0] == x[0]);
        assert(z.take(m as int)[0] == z[0]);
        assert(y.len() > 0);
        assert(x[0] == y[0]);
        let (a, b, c) = (x.drop_first(), y.drop_first(), z.drop_first());
        let k = (m - 1) as nat;
        assert(a.take(k as int) =~= x.take(m as int).drop_first());
        assert(c.take(k as int) =~= z.take(m as int).drop_first());
        lemma_between_starts(a, b, c, k);
        assert(y.take(m as int) =~= seq![y[0]] + b.take(k as int));
        assert(x.take(m as int) =~= seq![x[0]] + a.take(k as int));
        assert(x.skip(m as int) =~= a.skip(k as int));
        assert(y.skip(m as int) =~= b.skip(k as int));
        assert(z.skip(m as int) =~= c.skip(k as int));
    }
}

/// A path between two of a directory lies in it.
proof fn lemma_between_beside(x: Seq<char>, y: Seq<char>, z: Seq<char>, k: nat)
    requires
        text::lex_before(x, y),
        text::lex_before(y, z),
        k < text::split_of(x, '/').len(),
        k < text::split_of(z, '/').len(),
        text::split_of(x, '/').take(k as int) == text::split_of(z, '/').take(k as int),
    ensures
        k < text::split_of(y, '/').len(),
        text::split_of(y, '/').take(k as int) == text::split_of(x, '/').take(k as int),
    decreases k,
{
    let (a, b, c) = (text::split_of(x, '/'), text::split_of(y, '/'), text::split_of(z, '/'));
    if k == 0 {
        assert(b.take(0) =~= a.take(0));
    } else {
        let n = text::first_index(x, '/');
        let l = text::first_index(z, '/');
        text::lemma_first_index(x, '/');
        text::lemma_first_index(z, '/');
        assert(a.take(k as int)[0] == x.take(n));
        assert(c.take(k as int)[0] == z.take(l));
        assert(x.take(n).len() == z.take(l).len());
        assert(x.take(n + 1) =~= x.take(n).push('/'));
        assert(z.take(n + 1) =~= z.take(n).push('/'));
        lemma_between_starts(x, y, z, (n + 1) as nat);
        assert(y[n] == y.take(n + 1)[n]);
        assert forall|i: int| 0 <= i < n implies y[i] != '/' by {
            assert(y[i] == y.take(n + 1)[i]);
            assert(x[i] == x.take(n + 1)[i]);
        }
        text::lemma_is_first_index(y, '/', n);
        let j = (k - 1) as nat;
        let (a1, b1, c1) = (
            text::split_of(x.skip(n + 1), '/'),
            text::split_of(y.skip(n + 1), '/'),
            text::split_of(z.skip(n + 1), '/'),
        );
        assert(a =~= seq![x.take(n)] + a1);
        assert(b =~= seq![y.take(n)] + b1);
        assert(c =~= seq![z.take(n)] + c1);
        assert(a1.take(j as int) =~= a.take(k as int).drop_first());
        assert(c1.take(j as int) =~= c.take(k as int).drop_first());
        lemma_between_beside(x.skip(n + 1), y.skip(n + 1), z.skip(n + 1), j);
        assert(y.take(n) =~= y.take(n + 1).take(n));
        assert(x.take(n) =~= x.take(n + 1).take(n));
        assert(b.take(k as int) =~= seq![y.take(n)] + b1.take(j as int));
        assert(a.take(k as int) =~= seq![x.take(n)] + a1.take(j as int));
    }
}

/// The paths in the map are those of the list.
proof fn lemma_index_map_keys(paths: Seq<Seq<char>>, p: Seq<char>)
    requires
        index_map(paths).contains_key(p),
    ensures
        paths.contains(p),
        paths.len() <= usize::MAX ==> index_map(paths)[p] < paths.len() && paths[index_map(paths)[p] as int]
            == p,
    decreases paths.len(),
{
    if paths.len() > 0 {
        if p == paths.last() {
            assert(paths[paths.len() - 1] == p);
        } else {
            let front = paths.drop_last();
            lemma_index_map_keys(front, p);
            let i = choose|i: int| 0 <= i < front.len() && front[i] == p;
            assert(paths[i] == p);
        }
    }
}

/// The directories on the way to some files, each by the names on the way to it.
pub open spec fn dirs_of(paths: Seq<Seq<char>>) -> Set<Seq<Seq<char>>> {
    Set::new(
        |d: Seq<Seq<char>>|
            exists|i: int|
                0 <= i < paths.len() && 0 < d.len() < text::split_of(
                    #[trigger] paths[i],
                    '/',
                ).len() && text::split_of(paths[i], '/').take(d.len() as int) == d,
    )
}

/// Where no two files have one path, the tree has one row for each file and one for
/// each directory on the way to a file, and no others. The rows of the files stand in
/// the order of their paths, and only they have a file.
pub proof fn law_tree_has_each_file_and_directory_once(paths: Seq<Seq<char>>)
    requires
        paths.len() <= usize::MAX,
        forall|a: int, b: int| 0 <= a < b < paths.len() ==> paths[a] != paths[b],
    ensures
        ({
            let rows = tree_rows(items_of(paths), 0, seq![], true);
            &&& forall|r: int|
                0 <= r < rows.len() ==> ((#[trigger] rows[r]).is_dir <==> rows[r].file_index
                    is None)
            &&& forall|r: int|
                0 <= r < rows.len() && (#[trigger] rows[r]).file_index is Some
                    ==> rows[r].file_index->0 < paths.len() && row_of_file(
                    rows,
                    rows[r].file_index->0,
                ) == r
            &&& forall|r: int, s: int|
                0 <= r < s < rows.len() && (#[trigger] rows[r]).file_index is Some && (
                #[trigger] rows[s]).file_index is Some ==> text::lex_before(
                    paths[rows[r].file_index->0 as int],
                    paths[rows[s].file_index->0 as int],
                )
            &&& dirs_of(paths).finite()
            &&& rows.len() == paths.len() + dirs_of(paths).len()
        }),
{
    let e = lemma_index_map_ordered(paths);
    ordmap::lemma_ordered_is::<String, usize>(e);
    let items = items_of(paths);
    let rows = tree_rows(items, 0, seq![], true);
    assert(items.len() == e.len());
    assert forall|k: int| 0 <= k < e.len() implies (#[trigger] e[k]).1 < paths.len()
        && paths[e[k].1 as int] == e[k].0 && items[k] == item_of(e[k]) by {
        ordmap::lemma_map_of_at::<String, usize>(e, k);
        lemma_index_map_keys(paths, e[k].0);
    }
    lemma_rows_listed(items, 0, seq![], true);
    lemma_marked_len(rows);
    assert forall|r: int| 0 <= r < rows.len() && (#[trigger] rows[r]).file_index is Some implies ({
        let k = listed(rows.take(r)).len() as int;
        0 <= k < e.len() && rows[r].file_index == Some(e[k].1)
    }) by {
        lemma_listed_at(rows, r);
        let k = listed(rows.take(r)).len() as int;
        assert(items[k] == item_of(e[k]));
    }
    assert forall|r: int, s: int|
        0 <= r < s < rows.len() && (#[trigger] rows[r]).file_index is Some && (
        #[trigger] rows[s]).file_index is Some implies text::lex_before(
        paths[rows[r].file_index->0 as int],
        paths[rows[s].file_index->0 as int],
    ) by {
        lemma_listed_order(rows, r, s);
        let k = listed(rows.take(r)).len() as int;
        let l = listed(rows.take(s)).len() as int;
        assert(<String as ordmap::Key>::precedes(e[k].0, e[l].0));
    }
    assert forall|r: int| 0 <= r < rows.len() && (#[trigger] rows[r]).file_index is Some implies
        row_of_file(rows, rows[r].file_index->0) == r by {
        let i = rows[r].file_index->0;
        lemma_row_of_file(rows, i, r);
        let s = row_of_file(rows, i);
        text::lemma_lex_irreflexive(paths[i as int]);
        if s < r {
            assert(rows[s].file_index is Some && rows[r].file_index is Some);
            assert(text::lex_before(paths[i as int], paths[i as int]));
        } else if s > r {
            assert(rows[s].file_index is Some && rows[r].file_index is Some);
            assert(text::lex_before(paths[i as int], paths[i as int]));
        }
    }
    lemma_items_together(paths, e);
    lemma_rows_dirs(items, 0, seq![], true);
    assert(dirs_below(items, 0) =~= dirs_of(paths)) by {
        assert forall|d: Seq<Seq<char>>| dirs_below(items, 0).contains(d) == dirs_of(
            paths,
        ).contains(d) by {
            if dirs_below(items, 0).contains(d) {
                let k = choose|k: int| 0 <= k < items.len() && leads_to(d, #[trigger] items[k], 0);
                let i = e[k].1 as int;
                assert(paths[i] == e[k].0);
            }
            if dirs_of(paths).contains(d) {
                let i = choose|i: int|
                    0 <= i < paths.len() && 0 < d.len() < text::split_of(
                        #[trigger] paths[i],
                        '/',
                    ).len() && text::split_of(paths[i], '/').take(d.len() as int) == d;
                lemma_index_map(paths, i);
                let k = ordmap::index_of_key(e, paths[i]);
                assert(items[k] == item_of(e[k]));
                assert(leads_to(d, items[k], 0));
            }
        }
    }
    lemma_count(paths, e);
}

/// The files of the tree that lie in a directory stand together.
proof fn lemma_items_together(paths: Seq<Seq<char>>, e: Seq<(Seq<char>, usize)>)
    requires
        ordmap::increasing::<String, usize>(e),
        items_of(paths) == e.map_values(|p: (Seq<char>, usize)| item_of(p)),
    ensures
        are_beside(items_of(paths), 0),
        are_together(items_of(paths)),
{
    let items = items_of(paths);
    assert forall|i: int| 0 <= i < items.len() implies (#[trigger] items[i]).parts.len() > 0
        && items[i].parts.take(0) == items[0].parts.take(0) by {
        assert(items[i] == item_of(e[i]));
        assert(items[i].parts.take(0) =~= items[0].parts.take(0));
    }
    assert forall|i: int, j: int, l: int, d: Seq<Seq<char>>|
        0 <= i < j < l < items.len() && #[trigger] leads_to(d, items[i], 0) && #[trigger] leads_to(
            d,
            items[l],
            0,
        ) implies leads_to(d, #[trigger] items[j], 0) by {
        assert(items[i] == item_of(e[i]));
        assert(items[j] == item_of(e[j]));
        assert(items[l] == item_of(e[l]));
        assert(<String as ordmap::Key>::precedes(e[i].0, e[j].0));
        assert(<String as ordmap::Key>::precedes(e[j].0, e[l].0));
        lemma_between_beside(e[i].0, e[j].0, e[l].0, d.len());
    }
}

/// Where no two files have one path, each has its place in the order.
proof fn lemma_count(paths: Seq<Seq<char>>, e: Seq<(Seq<char>, usize)>)
    requires
        paths.len() <= usize::MAX,
        forall|a: int, b: int| 0 <= a < b < paths.len() ==> paths[a] != paths[b],
        ordmap::increasing::<String, usize>(e),
        ordmap::map_of(e) == index_map(paths),
    ensures
        e.len() == paths.len(),
{
    let keys = e.map_values(|p: (Seq<char>, usize)| p.0);
    assert(keys.no_duplicates()) by {
        assert forall|i: int, j: int| 0 <= i < keys.len() && 0 <= j < keys.len() && i != j implies
            keys[i] != keys[j] by {
            ordmap::lemma_map_of_at::<String, usize>(e, i);
            ordmap::lemma_map_of_at::<String, usize>(e, j);
        }
    }
    assert(paths.no_duplicates());
    assert(keys.to_set() =~= paths.to_set()) by {
        assert forall|p: Seq<char>| keys.to_set().contains(p) == paths.to_set().contains(p) by {
            if keys.contains(p) {
                let i = choose|i: int| 0 <= i < keys.len() && keys[i] == p;
                ordmap::lemma_map_of_at::<String, usize>(e, i);
                lemma_index_map_keys(paths, p);
            }
            if paths.contains(p) {
                let i = choose|i: int| 0 <= i < paths.len() && paths[i] == p;
                lemma_index_map(paths, i);
                let k = ordmap::index_of_key(e, p);
                assert(keys[k] == p);
            }
        }
    }
    keys.unique_seq_to_set();
    paths.unique_seq_to_set();
}

} // verus!
