//! The prompt that is printed.
use crate::config::PromptFilter;
use crate::git::ViewKind;
use crate::ordmap;
use crate::ordmap::{Duplicate, OrdMap};
use crate::review::{FileReview, FileReviewView, Review, ReviewView};
use crate::text;
use vstd::prelude::*;

verus! {

/// The views in which the code of comments is looked for in a prompt, the one that
/// the prompt is of first; that of the base only where there is one.
pub open spec fn prompt_views(filter: PromptFilter, include_base: bool) -> Seq<ViewKind> {
    let tree = match filter {
        PromptFilter::All => seq![ViewKind::All, ViewKind::Staged, ViewKind::Unstaged],
        PromptFilter::Staged => seq![ViewKind::Staged, ViewKind::All, ViewKind::Unstaged],
        PromptFilter::Unstaged => seq![ViewKind::Unstaged, ViewKind::All, ViewKind::Staged],
        PromptFilter::Base => seq![ViewKind::All, ViewKind::Staged, ViewKind::Unstaged],
    };
    if !include_base {
        tree
    } else if filter == PromptFilter::Base {
        seq![ViewKind::Base] + tree
    } else {
        tree.push(ViewKind::Base)
    }
}

/// The views in which the code of comments is looked for in a prompt.
pub fn prompt_view_order(filter: PromptFilter, include_base: bool) -> (out: Vec<ViewKind>)
    ensures
        out@ == prompt_views(filter, include_base),
{
    let mut out: Vec<ViewKind> = Vec::new();
    if filter == PromptFilter::Base && include_base {
        out.push(ViewKind::Base);
    }
    match filter {
        PromptFilter::Staged => {
            out.push(ViewKind::Staged);
            out.push(ViewKind::All);
            out.push(ViewKind::Unstaged);
        },
        PromptFilter::Unstaged => {
            out.push(ViewKind::Unstaged);
            out.push(ViewKind::All);
            out.push(ViewKind::Staged);
        },
        _ => {
            out.push(ViewKind::All);
            out.push(ViewKind::Staged);
            out.push(ViewKind::Unstaged);
        },
    }
    if filter != PromptFilter::Base && include_base {
        out.push(ViewKind::Base);
    }
    assert(out@ =~= prompt_views(filter, include_base));
    out
}

/// The paths of the files that a prompt speaks of, in order, each once: of the index
/// and the work tree, of one of them, or of the difference to the base.
pub open spec fn prompt_paths(
    filter: PromptFilter,
    staged: Seq<Seq<char>>,
    unstaged: Seq<Seq<char>>,
    base: Seq<Seq<char>>,
) -> Map<Seq<char>, Seq<char>> {
    match filter {
        PromptFilter::All => ordmap::set_of(staged).union_prefer_right(ordmap::set_of(unstaged)),
        PromptFilter::Unstaged => ordmap::set_of(unstaged),
        PromptFilter::Staged => ordmap::set_of(staged),
        PromptFilter::Base => ordmap::set_of(base),
    }
}

/// The files that a prompt speaks of.
pub fn prompt_files(
    filter: PromptFilter,
    staged: &Vec<String>,
    unstaged: &Vec<String>,
    base: &Vec<String>,
) -> (out: OrdMap<String, String>)
    ensures
        out@ == prompt_paths(
            filter,
            text::views(staged@),
            text::views(unstaged@),
            text::views(base@),
        ),
{
    let mut out = OrdMap::<String, String>::new();
    match filter {
        PromptFilter::All => {
            ordmap::add_names(&mut out, staged);
            ordmap::add_names(&mut out, unstaged);
        },
        PromptFilter::Unstaged => {
            ordmap::add_names(&mut out, unstaged);
        },
        PromptFilter::Staged => {
            ordmap::add_names(&mut out, staged);
        },
        PromptFilter::Base => {
            ordmap::add_names(&mut out, base);
        },
    }
    assert(out@ =~= prompt_paths(
        filter,
        text::views(staged@),
        text::views(unstaged@),
        text::views(base@),
    ));
    out
}

/// What a review holds of some files.
pub open spec fn restricted(m: ReviewView, files: Map<Seq<char>, Seq<char>>) -> ReviewView {
    Map::new(|p: Seq<char>| m.contains_key(p) && files.contains_key(p), |p: Seq<char>| m[p])
}

/// What a review holds of some files.
pub fn restrict(r: &Review, files: &OrdMap<String, String>) -> (out: Review)
    ensures
        out@ == restricted(r@, files@),
{
    let n: usize = r.files.len();
    let ghost e = ordmap::ordered::<String, FileReviewView>(r@);
    let mut out = OrdMap::<String, FileReview>::new();
    let mut i: usize = 0;
    proof {
        ordmap::lemma_map_of_empty::<String, FileReviewView>();
        assert(e.take(0) =~= Seq::empty());
        assert(out@ =~= restricted(ordmap::map_of(e.take(0)), files@));
    }
    while i < n
        invariant
            i <= n == e.len(),
            e == ordmap::ordered::<String, FileReviewView>(r@),
            ordmap::increasing::<String, FileReviewView>(e),
            out@ == restricted(ordmap::map_of(e.take(i as int)), files@),
        decreases n - i,
    {
        proof {
            ordmap::lemma_take_next::<String, FileReviewView>(e, i as int);
        }
        let path = r.files.key_at(i);
        if files.contains_key(path) {
            out.insert(path.clone(), r.files.val_at(i).duplicate());
        }
        assert(out@ =~= restricted(ordmap::map_of(e.take(i + 1)), files@));
        i += 1;
    }
    assert(e.take(n as int) =~= e);
    Review { files: out }
}

/// A prompt as it is printed: with a line feed at its end.
pub open spec fn printed_prompt(s: Seq<char>) -> Seq<char> {
    if s.len() > 0 && s.last() == '\n' {
        s
    } else {
        s.push('\n')
    }
}

/// A prompt as it is printed.
pub fn print_prompt(prompt: String) -> (out: String)
    ensures
        out@ == printed_prompt(prompt@),
{
    let mut out = prompt;
    if !crate::review::ends_with_newline(out.as_str()) {
        out.push('\n');
    }
    out
}

/// The prompt that a draft holds, or that there is none.
pub fn prompt_of_draft(content: String) -> (out: String)
    ensures
        out@ == (if text::is_blank(content@) {
            "No comments.\n"@
        } else {
            content@
        }),
{
    if text::blank(content.as_str()) {
        "No comments.\n".to_string()
    } else {
        content
    }
}

} // verus!
