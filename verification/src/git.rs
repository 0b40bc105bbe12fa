//! What the program asks of a git repository, and how it reads the answers.
use crate::hash;
use crate::ordmap;
use crate::ordmap::OrdMap;
use crate::text;
use vstd::prelude::*;
use vstd::utf8;

verus! {

/// What is compared: the work tree or the index with the last commit, the two
/// with each other, or the last commit with a base.
#[derive(Debug, Clone, Copy, PartialEq, Eq, Hash, Structural)]
pub enum ViewKind {
    All,
    Unstaged,
    Staged,
    Base,
}

/// Where the notes are kept unless something else is configured.
pub open spec fn default_notes_ref_text() -> Seq<char> {
    "refs/notes/remark"@
}

/// Where the notes are kept unless something else is configured.
pub fn default_notes_ref() -> (r: &'static str)
    ensures
        r@ == default_notes_ref_text(),
{
    "refs/notes/remark"
}

/// The configuration key for where the notes are kept.
pub fn notes_ref_key() -> (r: &'static str)
    ensures
        r@ == "remark.notesRef"@,
{
    "remark.notesRef"
}

/// The configuration key for the remote that the notes are fetched from.
pub fn notes_remote_key() -> (r: &'static str)
    ensures
        r@ == "remark.notesRemote"@,
{
    "remark.notesRemote"
}

/// Where the notes are kept, by what the repository has configured.
pub fn read_notes_ref(configured: Option<String>) -> (r: String)
    ensures
        r@ == (match configured {
            Some(c) => c@,
            None => default_notes_ref_text(),
        }),
{
    match configured {
        Some(c) => c,
        None => default_notes_ref().to_string(),
    }
}

/// The base to compare with where none was named: the upstream branch where
/// there is one, else the main branch, else the master branch, else what the
/// head of the remote stands for.
pub fn default_base_ref(
    has_upstream: bool,
    has_main: bool,
    has_master: bool,
    origin_head: Option<String>,
) -> (r: Option<String>)
    ensures
        text::opt_view(r) == (if has_upstream {
            Some("@{upstream}"@)
        } else if has_main {
            Some("refs/heads/main"@)
        } else if has_master {
            Some("refs/heads/master"@)
        } else {
            text::opt_view(origin_head)
        }),
{
    if has_upstream {
        Some("@{upstream}".to_string())
    } else if has_main {
        Some("refs/heads/main".to_string())
    } else if has_master {
        Some("refs/heads/master".to_string())
    } else {
        origin_head
    }
}

/// The configuration key for the remote of a branch.
pub fn branch_remote_key(branch: &str) -> (out: String)
    ensures
        out@ == "branch."@ + branch@ + ".remote"@,
{
    let mut out = String::new();
    out.append("branch.");
    out.append(branch);
    out.append(".remote");
    assert(out@ =~= "branch."@ + branch@ + ".remote"@);
    out
}

/// The remotes of a repository in order, each once.
pub fn list_remotes(found: &Vec<String>) -> (out: Vec<String>)
    ensures
        text::views(out@) == ordmap::sorted_names(text::views(found@)),
{
    ordmap::sort_names(found)
}

/// The remote among `remotes` to fetch notes from: `origin`, else the first.
pub open spec fn preferred_remote(remotes: Seq<Seq<char>>) -> Option<Seq<char>> {
    if remotes.len() == 0 {
        None
    } else if remotes.contains("origin"@) {
        Some("origin"@)
    } else {
        Some(remotes[0])
    }
}

/// Whether `names` holds `name`.
pub fn lists(names: &Vec<String>, name: &str) -> (r: bool)
    ensures
        r == text::views(names@).contains(name@),
{
    let ghost all = text::views(names@);
    let mut i: usize = 0;
    while i < names.len()
        invariant
            i <= names.len() == all.len(),
            all == text::views(names@),
            forall|j: int| 0 <= j < i ==> #[trigger] all[j] != name@,
        decreases names.len() - i,
    {
        if text::same(names[i].as_str(), name) {
            assert(all[i as int] == name@);
            return true;
        }
        assert(all[i as int] != name@);
        i += 1;
    }
    false
}

/// The remote to fetch notes from: the configured one, else that of the branch,
/// else `origin` where there is such a remote, else the first remote.
pub fn select_notes_remote(
    configured: Option<String>,
    of_branch: Option<String>,
    remotes: &Vec<String>,
) -> (r: Option<String>)
    ensures
        text::opt_view(r) == (if configured is Some {
            text::opt_view(configured)
        } else if of_branch is Some {
            text::opt_view(of_branch)
        } else {
            preferred_remote(text::views(remotes@))
        }),
{
    match configured {
        Some(c) => Some(c),
        None => match of_branch {
            Some(b) => Some(b),
            None => {
                if remotes.len() == 0 {
                    None
                } else if lists(remotes, "origin") {
                    Some("origin".to_string())
                } else {
                    Some(remotes[0].clone())
                }
            },
        },
    }
}

/// What is asked of a remote to fetch the notes.
pub fn notes_refspec(notes_ref: &str) -> (out: String)
    ensures
        out@ == "+"@ + notes_ref@ + ":"@ + notes_ref@,
{
    let mut out = String::new();
    out.append("+");
    out.append(notes_ref);
    out.append(":");
    out.append(notes_ref);
    assert(out@ =~= "+"@ + notes_ref@ + ":"@ + notes_ref@);
    out
}

/// The section and the name in a configuration key, split at the first dot;
/// nothing where there is no dot or one of the two is empty.
pub open spec fn config_key_parts(key: Seq<char>) -> Option<(Seq<char>, Seq<char>)> {
    let n = text::first_index(key, '.');
    if 0 < n && n + 1 < key.len() {
        Some((key.take(n), key.skip(n + 1)))
    } else {
        None
    }
}

/// The section and the name in a configuration key.
pub fn split_config_key(key: &str) -> (r: Option<(String, String)>)
    ensures
        match r {
            Some(p) => config_key_parts(key@) == Some((p.0@, p.1@)),
            None => config_key_parts(key@) is None,
        },
{
    let v = text::chars(key);
    let n: usize = text::index_from(&v, '.', 0);
    proof {
        text::lemma_first_index(key@, '.');
        assert(key@.skip(0) =~= key@);
    }
    if n == 0 || n >= v.len() || n + 1 >= v.len() {
        return None;
    }
    let section = text::string_of(&v, 0, n);
    let name = text::string_of(&v, n + 1, v.len());
    assert(section@ =~= key@.take(n as int));
    assert(name@ =~= key@.skip(n + 1));
    Some((section, name))
}

/// A path without a leading `./`.
pub open spec fn without_leading_dot(path: Seq<char>) -> Seq<char> {
    if text::occurs_at(path, "./"@, 0) {
        path.skip("./"@.len() as int)
    } else {
        path
    }
}

/// A path in the repository as the notes name it: without a leading `./`.
pub fn strip_leading_dot(path: &str) -> (out: String)
    ensures
        out@ == without_leading_dot(path@),
{
    match text::strip_prefix(path, "./") {
        Some(rest) => rest,
        None => path.to_string(),
    }
}

/// The name of a view in the key of a note.
pub open spec fn kind_name(kind: ViewKind) -> Seq<char> {
    match kind {
        ViewKind::All => "all"@,
        ViewKind::Unstaged => "unstaged"@,
        ViewKind::Staged => "staged"@,
        ViewKind::Base => "base"@,
    }
}

/// The line in the key of a note that names the base, where there is one.
pub open spec fn base_line(base: Option<Seq<char>>) -> Seq<char> {
    match base {
        Some(b) => "base:"@ + b + "\n"@,
        None => Seq::empty(),
    }
}

/// The text whose blob id names the note of a file in a view at a commit.
pub open spec fn note_key_text(
    head: Seq<char>,
    kind: ViewKind,
    base: Option<Seq<char>>,
    path: Seq<char>,
) -> Seq<char> {
    "remark-file-key:v1\n"@ + "head:"@ + head + "\n"@ + "kind:"@ + kind_name(kind) + "\n"@
        + base_line(base) + "path:"@ + path + "\n"@
}

/// The id that names the note of a file in a view at a commit; nothing where it
/// could not be computed.
pub fn note_file_key_oid(head: &str, kind: ViewKind, base_ref: Option<&str>, path: &str) -> (r: Option<
    String,
>)
    ensures
        text::opt_view(r) == hash::blob_id_of(
            utf8::encode_utf8(note_key_text(head@, kind, hash::opt_str(base_ref), path@)),
        ),
{
    let mut key = String::new();
    key.append("remark-file-key:v1\n");
    key.append("head:");
    key.append(head);
    key.append("\n");
    key.append("kind:");
    key.append(
        match kind {
            ViewKind::All => "all",
            ViewKind::Unstaged => "unstaged",
            ViewKind::Staged => "staged",
            ViewKind::Base => "base",
        },
    );
    key.append("\n");
    let ghost front = "remark-file-key:v1\n"@ + "head:"@ + head@ + "\n"@ + "kind:"@ + kind_name(kind)
        + "\n"@;
    assert(key@ =~= front);
    match base_ref {
        Some(b) => {
            key.append("base:");
            key.append(b);
            key.append("\n");
        },
        None => {},
    }
    assert(key@ =~= front + base_line(hash::opt_str(base_ref)));
    key.append("path:");
    key.append(path);
    key.append("\n");
    assert(key@ =~= note_key_text(head@, kind, hash::opt_str(base_ref), path@));
    hash::blob_id_of_text(key.as_str())
}

/// Where the first separator of a text stands, its two sides are known.
proof fn lemma_first_separator(a: Seq<char>, b: Seq<char>, x: Seq<char>, y: Seq<char>)
    requires
        a + "\n"@ + b == x + "\n"@ + y,
        hash::is_free_of(a, '\n'),
        hash::is_free_of(x, '\n'),
    ensures
        a == x,
        b == y,
{
    reveal_strlit("\n");
    let s = a + "\n"@ + b;
    let t = x + "\n"@ + y;
    assert(s[a.len() as int] == '\n');
    assert(t[x.len() as int] == '\n');
    if a.len() < x.len() {
        assert(t[a.len() as int] == x[a.len() as int]);
    }
    if x.len() < a.len() {
        assert(s[x.len() as int] == a[x.len() as int]);
    }
    assert(a =~= s.take(a.len() as int));
    assert(x =~= t.take(a.len() as int));
    assert(b =~= s.skip(a.len() as int + 1));
    assert(y =~= t.skip(a.len() as int + 1));
}

/// Taking the same start away from two texts.
proof fn lemma_same_start(start: Seq<char>, a: Seq<char>, b: Seq<char>)
    requires
        start + a == start + b,
    ensures
        a == b,
{
    assert(a =~= (start + a).skip(start.len() as int));
    assert(b =~= (start + b).skip(start.len() as int));
}

/// The part of a key behind its name of the view.
spec fn key_tail(base: Option<Seq<char>>, path: Seq<char>) -> Seq<char> {
    base_line(base) + "path:"@ + path + "\n"@
}

proof fn lemma_key_tail(
    base: Option<Seq<char>>,
    path: Seq<char>,
    other_base: Option<Seq<char>>,
    other_path: Seq<char>,
)
    requires
        key_tail(base, path) == key_tail(other_base, other_path),
        base is Some ==> hash::is_free_of(base->0, '\n'),
        other_base is Some ==> hash::is_free_of(other_base->0, '\n'),
    ensures
        base == other_base,
        path == other_path,
{
    reveal_strlit("base:");
    reveal_strlit("path:");
    reveal_strlit("\n");
    let s = key_tail(base, path);
    let t = key_tail(other_base, other_path);
    if base is Some {
        assert(s[0] == 'b');
    } else {
        assert(s[0] == 'p');
    }
    if other_base is Some {
        assert(t[0] == 'b');
    } else {
        assert(t[0] == 'p');
    }
    let rest = "path:"@ + path + "\n"@;
    let other_rest = "path:"@ + other_path + "\n"@;
    if base is Some {
        let b = base->0;
        let c = other_base->0;
        assert(s =~= "base:"@ + (b + "\n"@ + rest));
        assert(t =~= "base:"@ + (c + "\n"@ + other_rest));
        lemma_same_start("base:"@, b + "\n"@ + rest, c + "\n"@ + other_rest);
        lemma_first_separator(b, rest, c, other_rest);
    } else {
        assert(s =~= rest);
        assert(t =~= other_rest);
    }
    assert(path =~= rest.subrange(5, rest.len() - 1));
    assert(other_path =~= other_rest.subrange(5, other_rest.len() - 1));
}

/// A key, taken apart at its lines.
proof fn lemma_note_key_shape(
    head: Seq<char>,
    kind: ViewKind,
    base: Option<Seq<char>>,
    path: Seq<char>,
)
    ensures
        note_key_text(head, kind, base, path) == ("remark-file-key:v1\n"@ + "head:"@) + (head + "\n"@
            + ("kind:"@ + (kind_name(kind) + "\n"@ + key_tail(base, path)))),
{
    let a = "remark-file-key:v1\n"@ + "head:"@;
    let b = head;
    let n = "\n"@;
    let k = "kind:"@;
    let m = kind_name(kind);
    let l = base_line(base);
    let p = "path:"@;
    assert(a + b + n + k + m + n + l + p + path + n =~= a + (b + n + (k + (m + n + (l + p + path
        + n)))));
}

/// The names of views are told apart, and stand in one line.
proof fn lemma_kind_name(kind: ViewKind, other: ViewKind)
    ensures
        hash::is_free_of(kind_name(kind), '\n'),
        hash::is_free_of(kind_name(other), '\n'),
        kind_name(kind) == kind_name(other) ==> kind == other,
{
    reveal_strlit("all");
    reveal_strlit("unstaged");
    reveal_strlit("staged");
    reveal_strlit("base");
    assert("all"@[0] == 'a' && "unstaged"@[0] == 'u' && "staged"@[0] == 's' && "base"@[0] == 'b');
}

/// Two notes have the same key text only where they are of the same file in the
/// same view at the same commit, with the same base. A commit and a base are
/// named in one line.
pub proof fn law_note_key_tells_files_apart(
    head: Seq<char>,
    kind: ViewKind,
    base: Option<Seq<char>>,
    path: Seq<char>,
    other_head: Seq<char>,
    other_kind: ViewKind,
    other_base: Option<Seq<char>>,
    other_path: Seq<char>,
)
    requires
        note_key_text(head, kind, base, path) == note_key_text(
            other_head,
            other_kind,
            other_base,
            other_path,
        ),
        hash::is_free_of(head, '\n'),
        hash::is_free_of(other_head, '\n'),
        base is Some ==> hash::is_free_of(base->0, '\n'),
        other_base is Some ==> hash::is_free_of(other_base->0, '\n'),
    ensures
        head == other_head,
        kind == other_kind,
        base == other_base,
        path == other_path,
{
    let start = "remark-file-key:v1\n"@ + "head:"@;
    let tail = key_tail(base, path);
    let other_tail = key_tail(other_base, other_path);
    let rest = "kind:"@ + (kind_name(kind) + "\n"@ + tail);
    let other_rest = "kind:"@ + (kind_name(other_kind) + "\n"@ + other_tail);
    lemma_note_key_shape(head, kind, base, path);
    lemma_note_key_shape(other_head, other_kind, other_base, other_path);
    lemma_same_start(start, head + "\n"@ + rest, other_head + "\n"@ + other_rest);
    lemma_first_separator(head, rest, other_head, other_rest);
    lemma_same_start(
        "kind:"@,
        kind_name(kind) + "\n"@ + tail,
        kind_name(other_kind) + "\n"@ + other_tail,
    );
    lemma_kind_name(kind, other_kind);
    lemma_first_separator(kind_name(kind), tail, kind_name(other_kind), other_tail);
    lemma_key_tail(base, path, other_base, other_path);
}

/// How a file of the work tree differs from the index.
#[derive(Debug, Clone, Copy, PartialEq, Eq, Structural)]
pub enum UnstagedStatus {
    Changed(char),
    Untracked,
    Ignored,
}

impl View for UnstagedStatus {
    type V = UnstagedStatus;

    open spec fn view(&self) -> UnstagedStatus {
        *self
    }
}

/// A difference between the index and the work tree.
#[derive(Debug, Clone, Copy, PartialEq, Eq, Structural)]
pub enum WorktreeChange {
    Conflict,
    Modified,
    Removed,
    TypeChange,
    IntentToAdd,
    Added,
    Renamed,
    Copied,
}

/// What git reports of an entry of the work tree.
#[derive(Debug, Clone, Copy, PartialEq, Eq, Structural)]
pub enum WorktreeItem {
    /// A file that git does not know.
    Untracked,
    /// A file that git was told to ignore.
    Ignored,
    /// Another entry of a directory.
    Other,
    /// A file that git knows, with what became of it where anything did.
    Known(Option<WorktreeChange>),
}

/// An entry of the work tree as git reports it.
#[derive(Debug)]
pub struct StatusItem {
    pub path: String,
    pub is_dir: bool,
    pub item: WorktreeItem,
}

/// What a status item views to.
pub struct StatusItemView {
    pub path: Seq<char>,
    pub is_dir: bool,
    pub item: WorktreeItem,
}

impl View for StatusItem {
    type V = StatusItemView;

    open spec fn view(&self) -> StatusItemView {
        StatusItemView { path: self.path@, is_dir: self.is_dir, item: self.item }
    }
}

/// What status items view to.
pub open spec fn item_views(v: Seq<StatusItem>) -> Seq<StatusItemView> {
    Seq::new(v.len(), |i: int| v[i]@)
}

/// The letter that stands for a difference.
pub open spec fn change_letter(change: WorktreeChange) -> char {
    match change {
        WorktreeChange::Conflict => 'U',
        WorktreeChange::Modified => 'M',
        WorktreeChange::Removed => 'D',
        WorktreeChange::TypeChange => 'T',
        WorktreeChange::IntentToAdd => 'A',
        WorktreeChange::Added => 'A',
        WorktreeChange::Renamed => 'R',
        WorktreeChange::Copied => 'C',
    }
}

/// The status of an item, where it is listed.
pub open spec fn item_status_of(item: StatusItemView, include_ignored: bool) -> Option<
    UnstagedStatus,
> {
    if item.is_dir {
        None
    } else {
        match item.item {
            WorktreeItem::Untracked => Some(UnstagedStatus::Untracked),
            WorktreeItem::Ignored => if include_ignored {
                Some(UnstagedStatus::Ignored)
            } else {
                None
            },
            WorktreeItem::Other => None,
            WorktreeItem::Known(None) => None,
            WorktreeItem::Known(Some(c)) => Some(UnstagedStatus::Changed(change_letter(c))),
        }
    }
}

/// The status of an item, where it is listed: directories are not, and ignored
/// files only where they are asked for.
pub fn item_status(item: &StatusItem, include_ignored: bool) -> (r: Option<UnstagedStatus>)
    ensures
        r == item_status_of(item@, include_ignored),
{
    if item.is_dir {
        return None;
    }
    match item.item {
        WorktreeItem::Untracked => Some(UnstagedStatus::Untracked),
        WorktreeItem::Ignored => if include_ignored {
            Some(UnstagedStatus::Ignored)
        } else {
            None
        },
        WorktreeItem::Other => None,
        WorktreeItem::Known(None) => None,
        WorktreeItem::Known(Some(c)) => Some(
            UnstagedStatus::Changed(
                match c {
                    WorktreeChange::Conflict => 'U',
                    WorktreeChange::Modified => 'M',
                    WorktreeChange::Removed => 'D',
                    WorktreeChange::TypeChange => 'T',
                    WorktreeChange::IntentToAdd => 'A',
                    WorktreeChange::Added => 'A',
                    WorktreeChange::Renamed => 'R',
                    WorktreeChange::Copied => 'C',
                },
            ),
        ),
    }
}

/// The listed files with their status: of two items of one path the later counts.
pub open spec fn unstaged_of(items: Seq<StatusItemView>, include_ignored: bool) -> Map<
    Seq<char>,
    UnstagedStatus,
>
    decreases items.len(),
{
    if items.len() == 0 {
        Map::empty()
    } else {
        let front = unstaged_of(items.drop_last(), include_ignored);
        match item_status_of(items.last(), include_ignored) {
            Some(s) => front.insert(items.last().path, s),
            None => front,
        }
    }
}

/// The files of the work tree that differ from the index, with their status.
pub fn list_unstaged(items: &Vec<StatusItem>, include_ignored: bool) -> (out: OrdMap<
    String,
    UnstagedStatus,
>)
    ensures
        out@ == unstaged_of(item_views(items@), include_ignored),
{
    let mut out = OrdMap::<String, UnstagedStatus>::new();
    let ghost all = item_views(items@);
    let mut i: usize = 0;
    while i < items.len()
        invariant
            i <= items.len() == all.len(),
            all == item_views(items@),
            out@ == unstaged_of(all.take(i as int), include_ignored),
        decreases items.len() - i,
    {
        proof {
            assert(all.take(i + 1).drop_last() =~= all.take(i as int));
            assert(all.take(i + 1).last() == items@[i as int]@);
        }
        match item_status(&items[i], include_ignored) {
            Some(s) => {
                out.insert(items[i].path.clone(), s);
            },
            None => {},
        }
        i += 1;
    }
    assert(all.take(i as int) =~= all);
    out
}

/// The paths of the files of the work tree that differ from the index, in order.
pub fn list_unstaged_paths(items: &Vec<StatusItem>, include_ignored: bool) -> (out: Vec<String>)
    ensures
        text::views(out@) == ordmap::names_of(
            unstaged_of(item_views(items@), include_ignored),
        ),
{
    let listed = list_unstaged(items, include_ignored);
    ordmap::names(&listed)
}

/// A difference between the last commit and the index.
#[derive(Debug, Clone, Copy, PartialEq, Eq, Structural)]
pub enum IndexChange {
    Addition,
    Deletion,
    Modification,
    Rewrite { copy: bool },
}

/// The letter that stands for a difference.
pub open spec fn index_letter(change: IndexChange) -> char {
    match change {
        IndexChange::Addition => 'A',
        IndexChange::Deletion => 'D',
        IndexChange::Modification => 'M',
        IndexChange::Rewrite { copy } => if copy {
            'C'
        } else {
            'R'
        },
    }
}

/// The letters of the files that differ: of two changes of one path the later
/// counts.
pub open spec fn staged_of(changes: Seq<(String, IndexChange)>) -> Map<Seq<char>, char>
    decreases changes.len(),
{
    if changes.len() == 0 {
        Map::empty()
    } else {
        staged_of(changes.drop_last()).insert(changes.last().0@, index_letter(changes.last().1))
    }
}

/// The files of the index that differ from the last commit, with their letters.
pub fn list_staged_status(changes: &Vec<(String, IndexChange)>) -> (out: OrdMap<String, char>)
    ensures
        out@ == staged_of(changes@),
{
    let mut out = OrdMap::<String, char>::new();
    let mut i: usize = 0;
    while i < changes.len()
        invariant
            i <= changes.len(),
            out@ == staged_of(changes@.take(i as int)),
        decreases changes.len() - i,
    {
        proof {
            assert(changes@.take(i + 1).drop_last() =~= changes@.take(i as int));
        }
        let letter = match changes[i].1 {
            IndexChange::Addition => 'A',
            IndexChange::Deletion => 'D',
            IndexChange::Modification => 'M',
            IndexChange::Rewrite { copy } => if copy {
                'C'
            } else {
                'R'
            },
        };
        out.insert(changes[i].0.clone(), letter);
        i += 1;
    }
    assert(changes@.take(i as int) =~= changes@);
    out
}

/// The paths of the files of the index that differ from the last commit, in order.
pub fn list_staged_paths(changes: &Vec<(String, IndexChange)>) -> (out: Vec<String>)
    ensures
        text::views(out@) == ordmap::names_of(staged_of(changes@)),
{
    let listed = list_staged_status(changes);
    ordmap::names(&listed)
}

/// The paths at which the base and the last commit differ, in order, each once.
pub fn list_base_paths(changed: &Vec<String>) -> (out: Vec<String>)
    ensures
        text::views(out@) == ordmap::sorted_names(text::views(changed@)),
{
    ordmap::sort_names(changed)
}

} // verus!
