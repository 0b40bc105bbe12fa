//! The code that a comment is on, as it is shown in a prompt.
use crate::git::ViewKind;
use crate::hash;
use crate::ordmap;
use crate::ordmap::OrdMap;
use crate::review::{LineKey, LineSide, PromptSnippet};
use crate::text;
use vstd::prelude::*;

verus! {

/// The lines of the two versions of a file, of those that are there.
#[derive(Debug)]
pub struct LineContentMap {
    pub before: Option<Vec<String>>,
    pub after: Option<Vec<String>>,
}

/// What the lines of the two versions of a file are.
#[verifier::ext_equal]
pub struct ContentView {
    pub before: Option<Seq<Seq<char>>>,
    pub after: Option<Seq<Seq<char>>>,
}

/// Lines, where there are any.
pub open spec fn opt_lines(o: Option<Vec<String>>) -> Option<Seq<Seq<char>>> {
    match o {
        Some(v) => Some(text::views(v@)),
        None => None,
    }
}

impl View for LineContentMap {
    type V = ContentView;

    open spec fn view(&self) -> ContentView {
        ContentView { before: opt_lines(self.before), after: opt_lines(self.after) }
    }
}

/// The lines of the two versions of a file.
pub open spec fn content_of(before: Option<Seq<char>>, after: Option<Seq<char>>) -> ContentView {
    ContentView {
        before: match before {
            Some(s) => Some(text::lines_of(s)),
            None => None,
        },
        after: match after {
            Some(s) => Some(text::lines_of(s)),
            None => None,
        },
    }
}

/// The lines of the two versions of a file.
pub fn split_versions(before: Option<&str>, after: Option<&str>) -> (m: LineContentMap)
    ensures
        m@ == content_of(hash::opt_str(before), hash::opt_str(after)),
{
    LineContentMap {
        before: match before {
            Some(s) => Some(text::lines(s)),
            None => None,
        },
        after: match after {
            Some(s) => Some(text::lines(s)),
            None => None,
        },
    }
}

/// The line with the number `line`, counted from 1, with `context` lines before
/// and behind it as far as there are any; nothing where there is no such line.
pub open spec fn snippet_of(lines: Seq<Seq<char>>, line: u32, context: u32) -> Option<Seq<char>> {
    if 0 < line <= lines.len() {
        let start = if line - 1 >= context {
            line - 1 - context
        } else {
            0
        };
        let end = if line + context <= lines.len() {
            line + context
        } else {
            lines.len() as int
        };
        Some(text::joined(lines.subrange(start, end), "\n"@))
    } else {
        None
    }
}

/// The line with the number `line`, with the lines around it.
pub fn snippet_from_lines(lines: &Vec<String>, line: u32, context: u32) -> (r: Option<String>)
    ensures
        text::opt_view(r) == snippet_of(text::views(lines@), line, context),
{
    if line == 0 || line as usize > lines.len() {
        return None;
    }
    let idx: usize = (line - 1) as usize;
    let start: usize = if idx >= context as usize {
        idx - context as usize
    } else {
        0
    };
    let room: usize = lines.len() - idx - 1;
    let end: usize = if context as usize <= room {
        idx + 1 + context as usize
    } else {
        lines.len()
    };
    let mut part: Vec<String> = Vec::new();
    let ghost all = text::views(lines@);
    let mut i: usize = start;
    while i < end
        invariant
            start <= i <= end <= lines.len() == all.len(),
            all == text::views(lines@),
            text::views(part@) =~= all.subrange(start as int, i as int),
        decreases end - i,
    {
        let ghost before = text::views(part@);
        part.push(lines[i].clone());
        assert(text::views(part@) =~= before.push(all[i as int]));
        i += 1;
    }
    Some(text::join(&part, "\n"))
}

/// The code on a line in the versions of a file.
pub open spec fn snippet_in(c: ContentView, key: LineKey, context: u32) -> Option<Seq<char>> {
    let lines = match key.side {
        LineSide::Old => c.before,
        LineSide::New => c.after,
    };
    match lines {
        Some(l) => snippet_of(l, key.line, context),
        None => None,
    }
}

/// The code on a line in the versions of a file.
fn find_snippet(m: &LineContentMap, key: LineKey, context: u32) -> (r: Option<String>)
    ensures
        text::opt_view(r) == snippet_in(m@, key, context),
{
    let lines = match key.side {
        LineSide::Old => &m.before,
        LineSide::New => &m.after,
    };
    match lines {
        Some(l) => snippet_from_lines(l, key.line, context),
        None => None,
    }
}

/// What has been read of files so far, by view and path.
pub struct CacheView {
    pub all: Map<Seq<char>, ContentView>,
    pub unstaged: Map<Seq<char>, ContentView>,
    pub staged: Map<Seq<char>, ContentView>,
    pub base: Map<Seq<char>, ContentView>,
}

impl CacheView {
    /// What has been read of the files of a view.
    pub open spec fn of(self, view: ViewKind) -> Map<Seq<char>, ContentView> {
        match view {
            ViewKind::All => self.all,
            ViewKind::Unstaged => self.unstaged,
            ViewKind::Staged => self.staged,
            ViewKind::Base => self.base,
        }
    }

    /// What has been read after the file of a path in a view was, too.
    pub open spec fn with(self, view: ViewKind, path: Seq<char>, c: ContentView) -> CacheView {
        match view {
            ViewKind::All => CacheView { all: self.all.insert(path, c), ..self },
            ViewKind::Unstaged => CacheView { unstaged: self.unstaged.insert(path, c), ..self },
            ViewKind::Staged => CacheView { staged: self.staged.insert(path, c), ..self },
            ViewKind::Base => CacheView { base: self.base.insert(path, c), ..self },
        }
    }
}

/// What comes next when code is looked for.
pub enum SearchView {
    /// The file has to be read in a view first.
    Read(ViewKind),
    /// The search is over, with the code where it was found.
    Done(Option<Seq<char>>),
}

/// What comes next when code is looked for.
#[derive(Debug)]
pub enum Search {
    Read(ViewKind),
    Done(Option<String>),
}

impl View for Search {
    type V = SearchView;

    open spec fn view(&self) -> SearchView {
        match self {
            Search::Read(v) => SearchView::Read(*v),
            Search::Done(s) => SearchView::Done(text::opt_view(*s)),
        }
    }
}

/// What comes next when the code on a line is looked for in some views, one after
/// the other: the first that has not been read has to be, unless one before it has
/// the line.
pub open spec fn search(
    order: Seq<ViewKind>,
    cache: CacheView,
    path: Seq<char>,
    key: LineKey,
    context: u32,
) -> SearchView
    decreases order.len(),
{
    if order.len() == 0 {
        SearchView::Done(None)
    } else if !cache.of(order[0]).contains_key(path) {
        SearchView::Read(order[0])
    } else {
        match snippet_in(cache.of(order[0])[path], key, context) {
            Some(s) => SearchView::Done(Some(s)),
            None => search(order.drop_first(), cache, path, key, context),
        }
    }
}

/// Finds the code on lines of files, in some views one after the other, and keeps
/// what was read.
pub struct LineSnippetResolver {
    context_lines: u32,
    view_order: Vec<ViewKind>,
    all: OrdMap<String, LineContentMap>,
    unstaged: OrdMap<String, LineContentMap>,
    staged: OrdMap<String, LineContentMap>,
    base: OrdMap<String, LineContentMap>,
}

impl LineSnippetResolver {
    /// How many lines around the line itself are shown.
    pub closed spec fn context(&self) -> u32 {
        self.context_lines
    }

    /// The views, in the order in which they are looked at.
    pub closed spec fn order(&self) -> Seq<ViewKind> {
        self.view_order@
    }

    /// What has been read so far.
    pub closed spec fn cache(&self) -> CacheView {
        CacheView {
            all: self.all@,
            unstaged: self.unstaged@,
            staged: self.staged@,
            base: self.base@,
        }
    }

    /// A search in views of which nothing was read.
    pub fn new(context_lines: u32, view_order: Vec<ViewKind>) -> (r: Self)
        ensures
            r.context() == context_lines,
            r.order() == view_order@,
            r.cache() == (CacheView {
                all: Map::empty(),
                unstaged: Map::empty(),
                staged: Map::empty(),
                base: Map::empty(),
            }),
    {
        LineSnippetResolver {
            context_lines,
            view_order,
            all: OrdMap::new(),
            unstaged: OrdMap::new(),
            staged: OrdMap::new(),
            base: OrdMap::new(),
        }
    }

    /// What has been read of the file of a path in a view.
    fn read_of(&self, view: ViewKind, path: &String) -> (r: Option<&LineContentMap>)
        ensures
            match r {
                Some(c) => self.cache().of(view).contains_key(path@) && c@ == self.cache().of(
                    view,
                )[path@],
                None => !self.cache().of(view).contains_key(path@),
            },
    {
        match view {
            ViewKind::All => self.all.get(path),
            ViewKind::Unstaged => self.unstaged.get(path),
            ViewKind::Staged => self.staged.get(path),
            ViewKind::Base => self.base.get(path),
        }
    }

    /// The code on a line, or the view in which the file has to be read to find it.
    pub fn snippet(&self, path: &str, key: LineKey) -> (r: Search)
        ensures
            r@ == search(self.order(), self.cache(), path@, key, self.context()),
    {
        let name = path.to_string();
        let ghost order = self.view_order@;
        let ghost want = search(order, self.cache(), path@, key, self.context_lines);
        let mut i: usize = 0;
        assert(order.skip(0) =~= order);
        while i < self.view_order.len()
            invariant
                i <= self.view_order.len() == order.len(),
                order == self.view_order@,
                name@ == path@,
                want == search(order, self.cache(), path@, key, self.context_lines),
                want == search(
                    order.skip(i as int),
                    self.cache(),
                    path@,
                    key,
                    self.context_lines,
                ),
            decreases self.view_order.len() - i,
        {
            let view = self.view_order[i];
            assert(order.skip(i as int)[0] == view);
            assert(order.skip(i as int).drop_first() =~= order.skip(i + 1));
            match self.read_of(view, &name) {
                None => {
                    return Search::Read(view);
                },
                Some(c) => match find_snippet(c, key, self.context_lines) {
                    Some(s) => {
                        return Search::Done(Some(s));
                    },
                    None => {},
                },
            }
            i += 1;
        }
        Search::Done(None)
    }

    /// Keeps what was read of a file in a view.
    pub fn store(&mut self, view: ViewKind, path: &str, before: Option<&str>, after: Option<&str>)
        ensures
            final(self).context() == old(self).context(),
            final(self).order() == old(self).order(),
            final(self).cache() == old(self).cache().with(
                view,
                path@,
                content_of(hash::opt_str(before), hash::opt_str(after)),
            ),
    {
        let c = split_versions(before, after);
        let name = path.to_string();
        match view {
            ViewKind::All => self.all.insert(name, c),
            ViewKind::Unstaged => self.unstaged.insert(name, c),
            ViewKind::Staged => self.staged.insert(name, c),
            ViewKind::Base => self.base.insert(name, c),
        }
    }
}

/// Reading the file that a search asks for leads on: the same view is not asked for
/// again.
pub proof fn law_search_leads_on(
    order: Seq<ViewKind>,
    cache: CacheView,
    path: Seq<char>,
    key: LineKey,
    context: u32,
    c: ContentView,
)
    requires
        search(order, cache, path, key, context) is Read,
    ensures
        ({
            let view = search(order, cache, path, key, context)->Read_0;
            search(order, cache.with(view, path, c), path, key, context) != SearchView::Read(view)
        }),
    decreases order.len(),
{
    let view = search(order, cache, path, key, context)->Read_0;
    lemma_not_read_again(order, cache.with(view, path, c), path, key, context, view);
}

/// A view in which the file was read is not asked for.
proof fn lemma_not_read_again(
    order: Seq<ViewKind>,
    cache: CacheView,
    path: Seq<char>,
    key: LineKey,
    context: u32,
    view: ViewKind,
)
    requires
        cache.of(view).contains_key(path),
    ensures
        search(order, cache, path, key, context) != SearchView::Read(view),
    decreases order.len(),
{
    if order.len() > 0 && cache.of(order[0]).contains_key(path) {
        lemma_not_read_again(order.drop_first(), cache, path, key, context, view);
    }
}

/// The name of a file in the parts of its path: the last that is not empty and does
/// not stand for its own directory; empty where that stands for the one above, or
/// there is none.
pub open spec fn name_in(parts: Seq<Seq<char>>) -> Seq<char>
    decreases parts.len(),
{
    if parts.len() == 0 {
        seq![]
    } else if parts.last().len() == 0 || parts.last() == "."@ {
        name_in(parts.drop_last())
    } else if parts.last() == ".."@ {
        seq![]
    } else {
        parts.last()
    }
}

/// The index of the last dot in `s`, or -1.
pub open spec fn last_dot(s: Seq<char>) -> int
    decreases s.len(),
{
    if s.len() == 0 {
        -1
    } else if s.last() == '.' {
        s.len() - 1
    } else {
        last_dot(s.drop_last())
    }
}

/// The ending of a path: what stands behind the last dot of the name of its file,
/// unless the name starts with that dot; else empty.
pub open spec fn ending_of(path: Seq<char>) -> Seq<char> {
    let name = name_in(text::split_of(path, '/'));
    let n = last_dot(name);
    if n > 0 {
        name.skip(n + 1)
    } else {
        seq![]
    }
}

/// The name of the file of a path.
fn file_name(path: &str) -> (out: String)
    ensures
        out@ == name_in(text::split_of(path@, '/')),
{
    let parts = text::split(path, '/');
    let ghost all = text::views(parts@);
    let ghost want = name_in(all);
    let mut n: usize = parts.len();
    assert(all.take(n as int) =~= all);
    while n > 0
        invariant
            n <= parts.len() == all.len(),
            all == text::views(parts@),
            all == text::split_of(path@, '/'),
            want == name_in(all),
            want == name_in(all.take(n as int)),
        decreases n,
    {
        let part = &parts[n - 1];
        assert(all.take(n as int).last() == part@);
        assert(all.take(n as int).drop_last() =~= all.take(n - 1));
        let skipped = text::chars(part.as_str()).len() == 0 || text::same(part.as_str(), ".");
        if !skipped {
            if text::same(part.as_str(), "..") {
                assert(want =~= seq![]);
                return String::new();
            }
            return part.clone();
        }
        n -= 1;
    }
    assert(want =~= seq![]);
    String::new()
}

/// The ending of a path.
pub fn path_ending(path: &str) -> (out: String)
    ensures
        out@ == ending_of(path@),
{
    let name = file_name(path);
    let v = text::chars(name.as_str());
    let mut n: usize = v.len();
    let ghost want = last_dot(v@);
    assert(v@.take(n as int) =~= v@);
    while n > 0
        invariant
            n <= v.len(),
            v@ == name@,
            name@ == name_in(text::split_of(path@, '/')),
            want == last_dot(v@),
            want == last_dot(v@.take(n as int)),
        decreases n,
    {
        assert(v@.take(n as int).last() == v@[n - 1]);
        assert(v@.take(n as int).drop_last() =~= v@.take(n - 1));
        if v[n - 1] == '.' {
            if n == 1 {
                assert(ending_of(path@) =~= seq![]);
                return String::new();
            }
            let out = text::string_of(&v, n, v.len());
            assert(out@ =~= v@.skip(n as int));
            return out;
        }
        n -= 1;
    }
    assert(ending_of(path@) =~= seq![]);
    String::new()
}

/// The language that files with an ending are written in, as it is named in a
/// prompt.
pub open spec fn language_of_ending(ext: Seq<char>) -> Seq<char> {
    if ext == "rs"@ {
        "rust"@
    } else if ext == "go"@ {
        "go"@
    } else if ext == "py"@ {
        "python"@
    } else if ext == "js"@ {
        "javascript"@
    } else if ext == "jsx"@ {
        "jsx"@
    } else if ext == "ts"@ {
        "typescript"@
    } else if ext == "tsx"@ {
        "tsx"@
    } else if ext == "json"@ {
        "json"@
    } else if ext == "toml"@ {
        "toml"@
    } else if ext == "yaml"@ || ext == "yml"@ {
        "yaml"@
    } else if ext == "sh"@ {
        "sh"@
    } else if ext == "bash"@ {
        "bash"@
    } else if ext == "zsh"@ {
        "zsh"@
    } else if ext == "c"@ || ext == "h"@ {
        "c"@
    } else if ext == "cc"@ || ext == "cpp"@ || ext == "cxx"@ || ext == "hpp"@ {
        "cpp"@
    } else if ext == "md"@ {
        "markdown"@
    } else {
        "text"@
    }
}

/// The language of the file of a path, as it is named in a prompt: by the ending of
/// the path in lower case, and `text` where that is not known.
pub fn language_for_path(path: &str) -> (out: String)
    ensures
        out@ == language_of_ending(text::lowered(ending_of(path@))),
{
    let ext = path_ending(path);
    let low = text::lower(ext.as_str());
    let e = low.as_str();
    let name = if text::same(e, "rs") {
        "rust"
    } else if text::same(e, "go") {
        "go"
    } else if text::same(e, "py") {
        "python"
    } else if text::same(e, "js") {
        "javascript"
    } else if text::same(e, "jsx") {
        "jsx"
    } else if text::same(e, "ts") {
        "typescript"
    } else if text::same(e, "tsx") {
        "tsx"
    } else if text::same(e, "json") {
        "json"
    } else if text::same(e, "toml") {
        "toml"
    } else if text::same(e, "yaml") || text::same(e, "yml") {
        "yaml"
    } else if text::same(e, "sh") {
        "sh"
    } else if text::same(e, "bash") {
        "bash"
    } else if text::same(e, "zsh") {
        "zsh"
    } else if text::same(e, "c") || text::same(e, "h") {
        "c"
    } else if text::same(e, "cc") || text::same(e, "cpp") || text::same(e, "cxx") || text::same(
        e,
        "hpp",
    ) {
        "cpp"
    } else if text::same(e, "md") {
        "markdown"
    } else {
        "text"
    };
    name.to_string()
}

/// The code on a line, with the language of its file.
pub fn prompt_snippet(path: &str, code: Option<String>) -> (r: Option<PromptSnippet>)
    ensures
        match r {
            Some(s) => code is Some && s.code@ == code->0@ && s.lang@ == language_of_ending(
                text::lowered(ending_of(path@)),
            ),
            None => code is None,
        },
{
    match code {
        Some(code) => Some(PromptSnippet { code, lang: language_for_path(path) }),
        None => None,
    }
}

/// Those of some lines that stand at most `context` lines from the line with the number
/// `line`, in their order.
pub open spec fn near_lines(lines: Seq<Seq<char>>, line: int, context: int) -> Seq<Seq<char>>
    decreases lines.len(),
{
    if lines.len() == 0 {
        seq![]
    } else if -context <= lines.len() - line <= context {
        near_lines(lines.drop_last(), line, context).push(lines.last())
    } else {
        near_lines(lines.drop_last(), line, context)
    }
}

/// The first of some lines that stand near a line.
proof fn lemma_near_lines(lines: Seq<Seq<char>>, n: int, line: int, context: int)
    requires
        0 < line <= lines.len(),
        0 <= context,
        0 <= n <= lines.len(),
    ensures
        ({
            let start = if line - 1 >= context {
                line - 1 - context
            } else {
                0
            };
            let last = if line + context <= n {
                line + context
            } else {
                n
            };
            near_lines(lines.take(n), line, context) == (if start <= last {
                lines.subrange(start, last)
            } else {
                seq![]
            })
        }),
    decreases n,
{
    let start = if line - 1 >= context {
        line - 1 - context
    } else {
        0
    };
    if n == 0 {
        assert(lines.take(0) =~= seq![]);
        if start == 0 {
            assert(lines.subrange(0, 0) =~= seq![]);
        }
    } else {
        let t = lines.take(n);
        assert(t.drop_last() =~= lines.take(n - 1));
        lemma_near_lines(lines, n - 1, line, context);
        if -context <= n - line <= context {
            if start <= n - 1 {
                assert(lines.subrange(start, n) =~= lines.subrange(start, n - 1).push(
                    lines[n - 1],
                ));
            } else {
                assert(false);
            }
        } else if start == n {
            assert(lines.subrange(n, n) =~= seq![]);
        }
    }
}

/// The code beside a comment is made of exactly the lines that stand at most `context`
/// lines from the line of the comment, and so holds that line itself; there is none where
/// the file has no such line.
pub proof fn law_snippet_is_what_stands_near(lines: Seq<Seq<char>>, line: u32, context: u32)
    ensures
        snippet_of(lines, line, context) is Some <==> 1 <= line <= lines.len(),
        1 <= line <= lines.len() ==> snippet_of(lines, line, context) == Some(
            text::joined(near_lines(lines, line as int, context as int), "\n"@),
        ),
        1 <= line <= lines.len() ==> near_lines(lines, line as int, context as int).contains(
            lines[line - 1],
        ),
        1 <= line <= lines.len() && context == 0 ==> snippet_of(lines, line, context) == Some(
            lines[line - 1],
        ),
{
    if 1 <= line <= lines.len() {
        let (l, c) = (line as int, context as int);
        lemma_near_lines(lines, lines.len() as int, l, c);
        assert(lines.take(lines.len() as int) =~= lines);
        let start = if l - 1 >= c {
            l - 1 - c
        } else {
            0
        };
        let near = near_lines(lines, l, c);
        assert(near[l - 1 - start] == lines[l - 1]);
        if context == 0 {
            assert(near =~= seq![lines[l - 1]]);
            let none: Seq<Seq<char>> = seq![];
            assert(near.drop_first() =~= none);
            assert(text::joined(near, "\n"@) =~= lines[l - 1]);
        }
    }
}

/// The lines of the version of a file that a comment is on: the old one for a comment on
/// the old side, and the new one for one on the new side.
pub open spec fn commented_version(c: ContentView, side: LineSide) -> Option<Seq<Seq<char>>> {
    match side {
        LineSide::Old => c.before,
        LineSide::New => c.after,
    }
}

/// The code beside a comment is of the version that the comment is on, and stands near
/// its line there; there is none where that version is missing or has no such line.
pub proof fn law_code_is_of_the_commented_version(c: ContentView, key: LineKey, context: u32)
    ensures
        ({
            let lines = commented_version(c, key.side);
            snippet_in(c, key, context) == (if lines is Some && 1 <= key.line <= lines->0.len() {
                Some(
                    text::joined(
                        near_lines(lines->0, key.line as int, context as int),
                        "\n"@,
                    ),
                )
            } else {
                None
            })
        }),
{
    let lines = commented_version(c, key.side);
    if lines is Some {
        law_snippet_is_what_stands_near(lines->0, key.line, context);
    }
}

/// Whether the file was read in a view and has no code there for a comment.
pub open spec fn lacks_code(
    cache: CacheView,
    view: ViewKind,
    path: Seq<char>,
    key: LineKey,
    context: u32,
) -> bool {
    cache.of(view).contains_key(path) && snippet_in(cache.of(view)[path], key, context) is None
}

/// The views are gone through in their order: the code is that of the first view that has
/// any, a view is read only where none before it has, and there is none where no view has.
pub proof fn law_first_view_with_code_is_taken(
    order: Seq<ViewKind>,
    cache: CacheView,
    path: Seq<char>,
    key: LineKey,
    context: u32,
)
    ensures
        match search(order, cache, path, key, context) {
            SearchView::Done(Some(s)) => exists|i: int|
                0 <= i < order.len() && cache.of(#[trigger] order[i]).contains_key(path)
                    && snippet_in(cache.of(order[i])[path], key, context) == Some(s) && forall|
                    j: int,
                |
                    0 <= j < i ==> lacks_code(cache, #[trigger] order[j], path, key, context),
            SearchView::Done(None) => forall|j: int|
                0 <= j < order.len() ==> lacks_code(
                    cache,
                    #[trigger] order[j],
                    path,
                    key,
                    context,
                ),
            SearchView::Read(v) => exists|i: int|
                0 <= i < order.len() && #[trigger] order[i] == v && !cache.of(v).contains_key(path)
                    && forall|j: int|
                    0 <= j < i ==> lacks_code(cache, #[trigger] order[j], path, key, context),
        },
    decreases order.len(),
{
    if order.len() > 0 {
        let rest = order.drop_first();
        assert(order[0] == order.first());
        if cache.of(order[0]).contains_key(path) && snippet_in(
            cache.of(order[0])[path],
            key,
            context,
        ) is None {
            law_first_view_with_code_is_taken(rest, cache, path, key, context);
            assert forall|j: int| 0 < j < order.len() implies rest[j - 1] == #[trigger] order[j] by {}
            match search(rest, cache, path, key, context) {
                SearchView::Done(Some(s)) => {
                    let i = choose|i: int|
                        0 <= i < rest.len() && cache.of(#[trigger] rest[i]).contains_key(path)
                            && snippet_in(cache.of(rest[i])[path], key, context) == Some(s)
                            && forall|j: int|
                            0 <= j < i ==> lacks_code(
                                cache,
                                #[trigger] rest[j],
                                path,
                                key,
                                context,
                            );
                    assert(order[i + 1] == rest[i]);
                    assert forall|j: int| 0 <= j < i + 1 implies lacks_code(
                        cache,
                        #[trigger] order[j],
                        path,
                        key,
                        context,
                    ) by {
                        if j > 0 {
                            assert(order[j] == rest[j - 1]);
                        }
                    }
                },
                SearchView::Done(None) => {
                    assert forall|j: int| 0 <= j < order.len() implies lacks_code(
                        cache,
                        #[trigger] order[j],
                        path,
                        key,
                        context,
                    ) by {
                        if j > 0 {
                            assert(order[j] == rest[j - 1]);
                        }
                    }
                },
                SearchView::Read(v) => {
                    let i = choose|i: int|
                        0 <= i < rest.len() && #[trigger] rest[i] == v && !cache.of(
                            v,
                        ).contains_key(path) && forall|j: int|
                            0 <= j < i ==> lacks_code(
                                cache,
                                #[trigger] rest[j],
                                path,
                                key,
                                context,
                            );
                    assert(order[i + 1] == v);
                    assert forall|j: int| 0 <= j < i + 1 implies lacks_code(
                        cache,
                        #[trigger] order[j],
                        path,
                        key,
                        context,
                    ) by {
                        if j > 0 {
                            assert(order[j] == rest[j - 1]);
                        }
                    }
                },
            }
        }
    }
}

} // verus!
