//! How names, versions, languages and words are told, and what merging several notes keeps.
use crate::add_cmd;
use crate::comment_list;
use crate::comment_list::ListEntryView;
use crate::file_note;
use crate::git;
use crate::git::{IndexChange, ViewKind};
use crate::hash;
use crate::highlight;
use crate::highlight::ChunkView;
use crate::listing;
use crate::listing::{ListingView, Source};
use crate::lsp;
use crate::prompt_cmd;
use crate::reload;
use crate::review::{FileReview, LineKey, LineSide, ReviewView};
use crate::rows::RowView;
use crate::session;
use crate::session::CommentLocator;
use crate::session_rules;
use crate::text;
use crate::text_rules;
use vstd::prelude::*;

verus! {

/// A remote is chosen where there is one: `origin` if it is among them, or else the first.
pub proof fn law_origin_is_preferred(remotes: Seq<Seq<char>>)
    ensures
        ({
            let r = git::preferred_remote(remotes);
            &&& (r is Some) == (remotes.len() > 0)
            &&& r is Some ==> remotes.contains(r->0)
            &&& remotes.contains("origin"@) ==> r == Some("origin"@)
            &&& remotes.len() > 0 && !remotes.contains("origin"@) ==> r == Some(remotes[0])
        }),
{
    if remotes.len() > 0 {
        assert(remotes.contains(remotes[0]));
    }
}

/// The key of a setting is its section, up to the first dot, and the name behind the dot;
/// neither may be empty.
pub proof fn law_setting_has_a_section_and_a_name(section: Seq<char>, name: Seq<char>)
    requires
        hash::is_free_of(section, '.'),
    ensures
        git::config_key_parts(section + seq!['.'] + name) == (if section.len() > 0 && name.len()
            > 0 {
            Some((section, name))
        } else {
            None
        }),
        git::config_key_parts(section) is None,
{
    let key = section + seq!['.'] + name;
    text::lemma_is_first_index(key, '.', section.len() as int);
    text::lemma_is_first_index(section, '.', section.len() as int);
    assert(key.take(section.len() as int) =~= section);
    assert(key.skip(section.len() as int + 1) =~= name);
}

/// A path is the same with the directory that it is seen from in front of it.
pub proof fn law_leading_dot_makes_no_difference(path: Seq<char>)
    ensures
        git::without_leading_dot("./"@ + path) == path,
        !"./"@.is_prefix_of(path) ==> git::without_leading_dot(path) == path,
{
    let long = "./"@ + path;
    assert(long.subrange(0, "./"@.len() as int) =~= "./"@);
    assert(text::occurs_at(long, "./"@, 0));
    assert(long.skip("./"@.len() as int) =~= path);
    if text::occurs_at(path, "./"@, 0) {
        assert(path.subrange(0, "./"@.len() as int) =~= "./"@);
        assert("./"@.is_prefix_of(path));
    }
}

/// Each kind of change in the index has a letter of its own.
pub proof fn law_letter_tells_the_change(a: IndexChange, b: IndexChange)
    ensures
        (git::index_letter(a) == git::index_letter(b)) == (a == b),
        git::index_letter(a) == 'A' <==> a is Addition,
        git::index_letter(a) == 'D' <==> a is Deletion,
        git::index_letter(a) == 'M' <==> a is Modification,
        git::index_letter(a) == 'R' <==> a == (IndexChange::Rewrite { copy: false }),
{
}

/// What is staged of a file is the last change of it that the index tells of, and nothing is
/// staged of a file that it does not name.
pub proof fn law_last_change_of_a_file_is_staged(changes: Seq<(String, IndexChange)>, i: int)
    requires
        0 <= i < changes.len(),
        forall|j: int| i < j < changes.len() ==> (#[trigger] changes[j]).0@ != changes[i].0@,
    ensures
        git::staged_of(changes).contains_key(changes[i].0@),
        git::staged_of(changes)[changes[i].0@] == git::index_letter(changes[i].1),
    decreases changes.len(),
{
    if i < changes.len() - 1 {
        let front = changes.drop_last();
        assert(changes[changes.len() - 1].0@ != changes[i].0@);
        assert forall|j: int| i < j < front.len() implies (#[trigger] front[j]).0@
            != front[i].0@ by {
            assert(front[j] == changes[j]);
        }
        law_last_change_of_a_file_is_staged(front, i);
    }
}

/// Only what the index names is staged.
pub proof fn law_only_changed_files_are_staged(changes: Seq<(String, IndexChange)>, path: Seq<char>)
    ensures
        git::staged_of(changes).contains_key(path) ==> exists|i: int|
            0 <= i < changes.len() && (#[trigger] changes[i]).0@ == path,
    decreases changes.len(),
{
    if changes.len() > 0 {
        let front = changes.drop_last();
        law_only_changed_files_are_staged(front, path);
        if changes.last().0@ == path {
            assert(changes[changes.len() - 1].0@ == path);
        } else if git::staged_of(changes).contains_key(path) {
            let i = choose|i: int| 0 <= i < front.len() && (#[trigger] front[i]).0@ == path;
            assert(changes[i] == front[i]);
        }
    }
}

/// The views follow on each other: what is staged leads from the last commit to the index,
/// what is unstaged from there to the work tree, all of it from the one to the other, and
/// what a branch brings leads up to the last commit. No view is of one version alone.
pub proof fn law_views_follow_on_each_other(view: ViewKind)
    ensures
        listing::sources_of(ViewKind::Staged).1 == listing::sources_of(ViewKind::Unstaged).0,
        listing::sources_of(ViewKind::All) == (
            listing::sources_of(ViewKind::Staged).0,
            listing::sources_of(ViewKind::Unstaged).1,
        ),
        listing::sources_of(ViewKind::Base).1 == listing::sources_of(ViewKind::All).0,
        listing::sources_of(view).0 != listing::sources_of(view).1,
        listing::sources_of(ViewKind::All) == (Source::Head, Source::Worktree),
        listing::sources_of(ViewKind::Staged).1 is Index,
        listing::sources_of(ViewKind::Base).0 is Base,
{
}

/// Marks are kept for the work tree as a whole and, apart from that, for a branch.
pub proof fn law_marks_are_kept_for_a_branch_and_for_the_rest(a: ViewKind, b: ViewKind)
    ensures
        listing::mark_view(listing::mark_view(a)) == listing::mark_view(a),
        (listing::mark_view(a) == listing::mark_view(b)) == ((a is Base) == (b is Base)),
        listing::mark_view(ViewKind::All) is All,
{
}

/// Notes are looked for in every view of the work tree, once each and in the whole first,
/// and in the view of a branch just where that is shown.
pub proof fn law_notes_are_looked_for_in_every_view(view: ViewKind, other: ViewKind)
    ensures
        ({
            let v = listing::scanned_views(view);
            &&& v.contains(other) == (!(other is Base) || view is Base)
            &&& v.no_duplicates()
            &&& v[0] is All
        }),
{
    let v = listing::scanned_views(view);
    assert(v[0] is All);
    assert(v[1] is Staged);
    assert(v[2] is Unstaged);
    if view is Base {
        assert(v[3] is Base);
    }
}

/// A list of files has an entry for each of the paths, in their order.
pub proof fn law_each_path_has_its_entry(
    view: ViewKind,
    l: ListingView,
    paths: Seq<Seq<char>>,
    there: Seq<(bool, bool)>,
    i: int,
)
    requires
        0 <= i < paths.len(),
    ensures
        listing::entries_of(view, l, paths, there).len() == paths.len(),
        listing::entries_of(view, l, paths, there)[i].path == paths[i],
        listing::entries_of(view, l, paths, there)[i] == listing::entry_of(
            view,
            l,
            paths[i],
            there[i],
        ),
{
}

/// Highlighted code reads as the code: each piece keeps its words, its colours and its
/// look, and each line its pieces.
pub proof fn law_highlighted_code_reads_as_the_code(v: Seq<Seq<ChunkView>>, i: int, j: int)
    requires
        0 <= i < v.len(),
        0 <= j < v[i].len(),
    ensures
        ({
            let out = highlight::shown_code(v);
            let s = out[i][j];
            &&& out.len() == v.len()
            &&& out[i].len() == v[i].len()
            &&& s.content == v[i][j].text
            &&& v[i][j].style matches Some(look) ==> s.style.bold == look.bold && s.style.italic
                == look.italic && s.style.underlined == look.underline && s.style.crossed_out
                == look.strikethrough && s.style.fg == Some(
                crate::style::Color::Rgb(look.color.0, look.color.1, look.color.2),
            ) && (s.style.bg is Some) == (look.bg is Some)
            &&& v[i][j].style is None ==> s.style == crate::style::plain()
        }),
{
}

proof fn lemma_word_len(s: Seq<char>)
    ensures
        highlight::word_len(s) <= s.len(),
        forall|i: int| 0 <= i < highlight::word_len(s) ==> !text::is_space(#[trigger] s[i]),
        highlight::word_len(s) < s.len() ==> text::is_space(s[highlight::word_len(s) as int]),
    decreases s.len(),
{
    if s.len() > 0 && !text::is_space(s[0]) {
        let rest = s.drop_first();
        lemma_word_len(rest);
        assert forall|i: int| 0 <= i < highlight::word_len(s) implies !text::is_space(
            #[trigger] s[i],
        ) by {
            if i > 0 {
                assert(rest[i - 1] == s[i]);
            }
        }
    }
}

/// The first word of a text stands behind the white space that the text starts with, has
/// none in it and ends where the next white space or the text does.
pub proof fn law_first_word_is_between_white_space(s: Seq<char>)
    ensures
        ({
            let w = highlight::first_word(s);
            let at = s.len() - text::trimmed_start(s).len();
            &&& 0 <= at && at + w.len() <= s.len()
            &&& s.subrange(at, at + w.len()) == w
            &&& text::is_blank(s.take(at))
            &&& forall|i: int| 0 <= i < w.len() ==> !text::is_space(#[trigger] w[i])
            &&& at + w.len() < s.len() ==> text::is_space(s[at + w.len()])
            &&& (w.len() == 0) == text::is_blank(s)
        }),
{
    let t = text::trimmed_start(s);
    let w = highlight::first_word(s);
    text_rules::law_trimming_takes_one_end_away(s);
    lemma_word_len(t);
    text::lemma_blank_trimmed(s);
    let at = s.len() - t.len();
    assert(s.subrange(at, at + w.len()) =~= w);
    if at + w.len() < s.len() {
        assert(t[w.len() as int] == s[at + w.len()]);
    }
}

/// A language is known by its name or by the name of a file however either is capitalised,
/// and nothing is the name of none.
pub proof fn law_language_is_known_by_its_name(name: Seq<char>, detected: Option<Seq<char>>)
    ensures
        highlight::lang_under(name) == highlight::lang_under(text::lowered(name)),
        highlight::lang_named(text::lowered(name)) is Some ==> highlight::lang_under(name)
            == highlight::lang_named(text::lowered(name)),
        text::is_blank(name) ==> highlight::token_lang(name, detected) is None,
        !text::is_blank(name) ==> highlight::token_lang(name, None) == highlight::lang_under(
            highlight::first_word(name),
        ),
{
    text_rules::law_lowering_takes_capitals_away(name);
    law_first_word_is_between_white_space(name);
}

/// What was detected for a text is its language where that is a known one; else the first
/// word of the text tells it.
pub proof fn law_detected_language_is_taken_first(info: Seq<char>, detected: Seq<char>)
    requires
        !text::is_blank(info),
    ensures
        ({
            let known = !text::is_blank(detected) && highlight::lang_under(detected) is Some;
            &&& known ==> highlight::token_lang(info, Some(detected)) == highlight::lang_under(
                detected,
            )
            &&& !known ==> highlight::token_lang(info, Some(detected)) == highlight::token_lang(
                info,
                None,
            )
        }),
{
    law_first_word_is_between_white_space(info);
}

/// The language of a file is what its path tells, or else what was detected from the file,
/// or else what is known of files of its name; the first of them that tells it.
pub proof fn law_path_tells_the_language_first(
    path: Seq<char>,
    for_path: Option<Seq<char>>,
    from_file: Option<Seq<char>>,
    for_language: Option<Seq<char>>,
)
    ensures
        ({
            let l = highlight::file_lang(path, for_path, from_file, for_language);
            let by_path = highlight::token_lang(path, for_path);
            let by_content = if from_file is Some {
                highlight::token_lang(from_file->0, for_language)
            } else {
                None
            };
            let by_name = highlight::lang_of_file(path);
            &&& by_path is Some ==> l == by_path
            &&& by_path is None && by_content is Some ==> l == by_content
            &&& by_path is None && by_content is None ==> l == by_name
        }),
{
}

/// Where no line is named a comment is on the file, and where no side is named it is on the
/// new version.
pub proof fn law_new_version_is_meant(line: u32, side: LineSide)
    ensures
        add_cmd::place_of(None, Some(side)) is File,
        add_cmd::place_of(None, None) is File,
        add_cmd::place_of(Some(line), Some(side)) == (CommentLocator::Line { side, line }),
        add_cmd::place_of(Some(line), None) == add_cmd::place_of(Some(line), Some(LineSide::New)),
{
}

/// The words of a text, run together.
pub open spec fn run_together(words: Seq<Seq<char>>) -> Seq<char>
    decreases words.len(),
{
    if words.len() == 0 {
        seq![]
    } else {
        words[0] + run_together(words.drop_first())
    }
}

/// A text without its white space.
pub open spec fn without_space(s: Seq<char>) -> Seq<char>
    decreases s.len(),
{
    if s.len() == 0 {
        seq![]
    } else if text::is_space(s[0]) {
        without_space(s.drop_first())
    } else {
        seq![s[0]] + without_space(s.drop_first())
    }
}

proof fn lemma_trimmed_without_space(s: Seq<char>)
    ensures
        without_space(text::trimmed_start(s)) == without_space(s),
    decreases s.len(),
{
    if s.len() > 0 && text::is_space(s[0]) {
        lemma_trimmed_without_space(s.drop_first());
    }
}

proof fn lemma_word_without_space(t: Seq<char>)
    ensures
        ({
            let n = highlight::word_len(t) as int;
            without_space(t) == t.take(n) + without_space(t.skip(n))
        }),
    decreases t.len(),
{
    let n = highlight::word_len(t) as int;
    lemma_word_len(t);
    if n > 0 {
        let rest = t.drop_first();
        lemma_word_without_space(rest);
        assert(t.take(n) =~= seq![t[0]] + rest.take(n - 1));
        assert(t.skip(n) =~= rest.skip(n - 1));
        assert(without_space(t) =~= t.take(n) + without_space(t.skip(n)));
    } else {
        assert(t.skip(0) =~= t);
        assert(without_space(t) =~= t.take(0) + without_space(t));
    }
}

/// A line of arguments is read word by word: no word is empty or holds white space, and run
/// together they are the line without its white space.
pub proof fn law_words_are_what_white_space_parts(s: Seq<char>)
    ensures
        ({
            let words = add_cmd::words_of(s);
            &&& run_together(words) == without_space(s)
            &&& forall|i: int| 0 <= i < words.len() ==> (#[trigger] words[i]).len() > 0
            &&& forall|i: int, j: int|
                0 <= i < words.len() && 0 <= j < words[i].len() ==> !text::is_space(
                    #[trigger] words[i][j],
                )
        }),
    decreases s.len(),
{
    let t = text::trimmed_start(s);
    let words = add_cmd::words_of(s);
    text_rules::law_trimming_takes_one_end_away(s);
    lemma_trimmed_without_space(s);
    lemma_word_len(t);
    lemma_word_without_space(t);
    if t.len() > 0 {
        let n = highlight::word_len(t) as int;
        let rest = t.skip(n);
        law_words_are_what_white_space_parts(rest);
        let later = add_cmd::words_of(rest);
        assert(words =~= seq![highlight::first_word(s)] + later);
        assert(words.drop_first() =~= later);
        assert forall|i: int| 0 <= i < words.len() implies (#[trigger] words[i]).len() > 0 by {
            if i > 0 {
                assert(words[i] == later[i - 1]);
            }
        }
        assert forall|i: int, j: int|
            0 <= i < words.len() && 0 <= j < words[i].len() implies !text::is_space(
            #[trigger] words[i][j],
        ) by {
            if i > 0 {
                assert(words[i] == later[i - 1]);
            } else {
                assert(words[0][j] == t[j]);
            }
        }
    } else {
        assert(words =~= seq![]);
    }
}

/// White space parts words: the words of two texts with white space between them are those
/// of the one and then those of the other, where the one is a single word.
pub proof fn law_white_space_parts_words(word: Seq<char>, c: char, s: Seq<char>)
    requires
        word.len() > 0,
        forall|i: int| 0 <= i < word.len() ==> !text::is_space(#[trigger] word[i]),
        text::is_space(c),
    ensures
        add_cmd::words_of(word + seq![c] + s) == seq![word] + add_cmd::words_of(s),
{
    let all = word + seq![c] + s;
    let n = word.len() as int;
    assert(all[0] == word[0]);
    assert(text::trimmed_start(all) == all);
    lemma_word_len(all);
    let k = highlight::word_len(all) as int;
    assert(k == n) by {
        if k < n {
            assert(text::is_space(all[k]));
            assert(all[k] == word[k]);
        }
        if k > n {
            assert(!text::is_space(all[n]));
            assert(all[n] == c);
        }
    }
    assert(all.take(n) =~= word);
    let rest = all.skip(n);
    assert(rest =~= seq![c] + s);
    assert(rest[0] == c);
    assert(rest.drop_first() =~= s);
    assert(text::trimmed_start(rest) == text::trimmed_start(s));
    assert(add_cmd::words_of(rest) == add_cmd::words_of(s));
}

/// The language server is started by its own name, with the words that were set behind it.
pub proof fn law_server_is_given_the_words_that_were_set(extra: Option<Seq<char>>)
    ensures
        lsp::server_args(extra)[0] == "lsp"@,
        extra is None ==> lsp::server_args(extra).len() == 1,
        extra is Some ==> lsp::server_args(extra).skip(1) == add_cmd::words_of(extra->0),
{
    if extra is Some {
        assert(lsp::server_args(extra).skip(1) =~= add_cmd::words_of(extra->0));
    }
}

/// The name of a side tells the side, and no other name does.
pub proof fn law_side_is_told_by_its_name(side: LineSide, name: Seq<char>)
    ensures
        lsp::side_named(hash::side_name(side)) == Some(side),
        lsp::side_named(name) is Some ==> name == hash::side_name(lsp::side_named(name)->0),
{
    reveal_strlit("old");
    reveal_strlit("new");
    assert("old"@[0] != "new"@[0]);
}

/// Comments that were kept as bare words come over at their places, open and with all of
/// their words.
pub proof fn law_old_notes_come_over(
    file_comment: Option<Seq<char>>,
    comments: Map<LineKey, Seq<char>>,
    k: LineKey,
)
    ensures
        ({
            let f = file_note::upgraded_file(file_comment, comments);
            &&& f.comments.contains_key(k) == comments.contains_key(k)
            &&& comments.contains_key(k) ==> f.comments[k].body == comments[k]
                && !f.comments[k].resolved && f.comments[k].snippet_hash is None
            &&& (f.file_comment is Some) == (file_comment is Some)
            &&& file_comment is Some ==> f.file_comment->0.body == file_comment->0
                && !f.file_comment->0.resolved
            &&& !f.reviewed
        }),
{
}

/// Of any number of notes the merged one has a comment at just the places where one of them
/// has one, each as one of them has it, and an open one wherever one of them is open.
#[verifier::rlimit(40)]
pub proof fn law_merged_notes_have_what_any_has(found: Seq<FileReview>, at: CommentLocator)
    requires
        found.len() > 0,
    ensures
        lsp::merged_notes(found) is Some,
        session::merged_all(found) is Some,
        ({
            let a = session_rules::in_file(lsp::merged_notes(found)->0, at);
            let b = session_rules::in_file(session::merged_all(found)->0, at);
            &&& a == b
            &&& a is Some ==> exists|i: int|
                0 <= i < found.len() && session_rules::in_file((#[trigger] found[i])@, at) == a
            &&& forall|i: int|
                0 <= i < found.len() && session_rules::in_file((#[trigger] found[i])@, at) is Some
                    ==> a is Some && (!session_rules::in_file(found[i]@, at)->0.resolved
                    ==> !a->0.resolved)
        }),
        session::merged_all(found)->0.reviewed == exists|i: int|
            0 <= i < found.len() && (#[trigger] found[i])@.reviewed,
    decreases found.len(),
{
    let front = found.drop_last();
    let n = found.len() - 1;
    assert(found[n] == found.last());
    assert forall|i: int| 0 <= i < n implies #[trigger] found[i] == front[i] by {}
    if front.len() > 0 {
        law_merged_notes_have_what_any_has(front, at);
        let p = lsp::merged_notes(front)->0;
        let q = session::merged_all(front)->0;
        session_rules::law_merged_note_has_what_either_has(p, found.last()@, at);
        session_rules::law_merged_note_has_what_either_has(q, found.last()@, at);
        let a = session_rules::in_file(lsp::merged_notes(found)->0, at);
        let before = session_rules::in_file(p, at);
        if a is Some && a == before {
            let i = choose|i: int|
                0 <= i < front.len() && session_rules::in_file((#[trigger] front[i])@, at)
                    == before;
            assert(found[i] == front[i]);
        }
        if q.reviewed {
            let i = choose|i: int| 0 <= i < front.len() && (#[trigger] front[i])@.reviewed;
            assert(found[i]@.reviewed);
        }
        if exists|i: int| 0 <= i < found.len() && (#[trigger] found[i])@.reviewed {
            let i = choose|i: int| 0 <= i < found.len() && (#[trigger] found[i])@.reviewed;
            if i < n {
                assert(front[i]@.reviewed);
            }
        }
    } else {
        assert(lsp::merged_notes(front) is None);
        assert(session::merged_all(front) is None);
    }
}

/// The files that are shown as reviewed are those that are marked.
pub proof fn law_marked_files_are_shown_as_reviewed(m: ReviewView, path: Seq<char>)
    ensures
        reload::reviewed_set(m).contains_key(path) == (m.contains_key(path) && m[path].reviewed),
{
}

/// A file is shown whole as it is now; one that is gone as it was; and a version that is not
/// there is told apart from every file.
pub proof fn law_present_version_is_shown_whole(
    before: Option<Seq<char>>,
    after: Option<Seq<char>>,
    prefix: Seq<char>,
    path: Seq<char>,
)
    ensures
        after is Some ==> reload::whole_text(before, after) == after->0,
        after is None && before is Some ==> reload::whole_text(before, after) == before->0,
        after is None && before is None ==> reload::whole_text(before, after).len() == 0,
        reload::version_label(prefix, path, true) == prefix + path,
        reload::version_label(prefix, path, false) == "/dev/null"@,
{
}

/// The rows of a file stand under its path.
pub proof fn law_rows_stand_under_their_path(path: Seq<char>, r: Seq<RowView>, i: int)
    requires
        0 <= i < r.len(),
    ensures
        reload::with_file_header(path, r).len() == r.len() + 1,
        reload::with_file_header(path, r)[0] == (RowView::FileHeader { path }),
        reload::with_file_header(path, r)[i + 1] == r[i],
{
}

/// What is done in the list of comments is done to the ones that are marked, or to the
/// selected one where none is.
pub proof fn law_marked_comments_are_chosen(
    list: Seq<ListEntryView>,
    selected: usize,
    marked: Seq<usize>,
    i: usize,
)
    requires
        i < list.len(),
    ensures
        marked.contains(i) ==> comment_list::is_chosen(i as int, selected, marked),
        marked.len() == 0 ==> comment_list::is_chosen(i as int, selected, marked) == (i
            == selected),
        marked.len() > 0 && !marked.contains(i) ==> !comment_list::is_chosen(
            i as int,
            selected,
            marked,
        ),
        comment_list::is_chosen(i as int, selected, marked) ==> comment_list::chosen_files(
            list,
            selected,
            marked,
        ).contains_key(list[i as int].path),
{
    if marked.contains(i) {
        let j = choose|j: int| 0 <= j < marked.len() && marked[j] == i;
        assert(marked[j] == i);
    }
    if marked.len() > 0 && comment_list::is_chosen(i as int, selected, marked) {
        let j = choose|j: int| 0 <= j < marked.len() && #[trigger] marked[j] == i;
        assert(marked.contains(marked[j]));
    }
}

/// Only files with a chosen comment are touched.
pub proof fn law_only_chosen_files_are_touched(
    list: Seq<ListEntryView>,
    selected: usize,
    marked: Seq<usize>,
    path: Seq<char>,
)
    requires
        comment_list::chosen_files(list, selected, marked).contains_key(path),
    ensures
        exists|i: int|
            0 <= i < list.len() && (#[trigger] list[i]).path == path && comment_list::is_chosen(
                i,
                selected,
                marked,
            ),
{
}

/// A printed prompt ends its last line, and is printed as it is where it did already.
pub proof fn law_printed_prompt_ends_its_line(s: Seq<char>)
    ensures
        prompt_cmd::printed_prompt(s).last() == '\n',
        s.is_prefix_of(prompt_cmd::printed_prompt(s)),
        prompt_cmd::printed_prompt(s).len() <= s.len() + 1,
        prompt_cmd::printed_prompt(prompt_cmd::printed_prompt(s)) == prompt_cmd::printed_prompt(s),
        s.len() > 0 && s.last() == '\n' ==> prompt_cmd::printed_prompt(s) == s,
{
    assert(s =~= prompt_cmd::printed_prompt(s).subrange(0, s.len() as int));
}

} // verus!
