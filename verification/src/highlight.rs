//! Code in colour, by its language.
use crate::style;
use crate::style::{Color, Span, SpanView, Style, StyledLine, StyledView};
use crate::text;
use syntastica::language_set::SupportedLanguage;
use syntastica_parsers::{Lang, LanguageSetImpl};
use vstd::prelude::*;

verus! {

/// `syntastica_parsers::LanguageSetImpl`: the parsers, each made ready when it is
/// first used.
#[verifier::external_type_specification]
#[verifier::external_body]
pub struct ExLanguageSetImpl(LanguageSetImpl);

/// The look that a theme gives to a piece of code: its colour, the colour behind
/// it, and whether it is bold, italic, underlined and struck through.
#[derive(Debug, Clone, Copy)]
pub struct CodeStyle {
    pub color: (u8, u8, u8),
    pub bg: Option<(u8, u8, u8)>,
    pub bold: bool,
    pub italic: bool,
    pub underline: bool,
    pub strikethrough: bool,
}

/// A piece of code, with its look where the theme has one for it.
#[derive(Debug)]
pub struct Chunk {
    pub text: String,
    pub style: Option<CodeStyle>,
}

/// What a piece of code views to.
pub struct ChunkView {
    pub text: Seq<char>,
    pub style: Option<CodeStyle>,
}

impl View for Chunk {
    type V = ChunkView;

    open spec fn view(&self) -> ChunkView {
        ChunkView { text: self.text@, style: self.style }
    }
}

/// What some lines of pieces of code view to.
pub open spec fn chunk_views(v: Seq<Vec<Chunk>>) -> Seq<Seq<ChunkView>> {
    Seq::new(v.len(), |i: int| Seq::new(v[i]@.len(), |j: int| v[i]@[j]@))
}

/// What some lines of pieces of code view to, where there are any.
pub open spec fn opt_chunks(o: Option<Vec<Vec<Chunk>>>) -> Option<Seq<Seq<ChunkView>>> {
    match o {
        Some(v) => Some(chunk_views(v@)),
        None => None,
    }
}

/// The name of the language that goes by `name`, where there is one.
pub uninterp spec fn lang_named(name: Seq<char>) -> Option<Seq<char>>;

/// `SupportedLanguage::for_name` of `Lang`: looks `name` up in the fixed table of
/// language names. The language is handed on by its name in that table. Nothing
/// is said of what the table holds.
#[verifier::external_body]
fn lang_for_name(name: &str) -> (r: Option<String>)
    ensures
        text::opt_view(r) == lang_named(name@),
{
    let lang = <Lang as SupportedLanguage<'_, ()>>::for_name(name, &()).ok()?;
    Some(<Lang as SupportedLanguage<'_, ()>>::name(&lang).into_owned())
}

/// The name of the language of files that are named `name` or end in it, where
/// there is one.
pub uninterp spec fn lang_of_file(name: Seq<char>) -> Option<Seq<char>>;

/// `SupportedLanguage::for_injection` of `Lang`: takes `name` for the path of a
/// file, then for the ending of one, and looks the kind of file up in fixed
/// tables. No file is read. The language is handed on by its name. Nothing is said
/// of what the tables hold.
#[verifier::external_body]
fn lang_for_file(name: &str) -> (r: Option<String>)
    ensures
        text::opt_view(r) == lang_of_file(name@),
{
    let lang = <Lang as SupportedLanguage<'_, ()>>::for_injection(name, &())?;
    Some(<Lang as SupportedLanguage<'_, ()>>::name(&lang).into_owned())
}

/// The lines of `code`, read as the language of the name `lang`, in pieces with
/// their looks; nothing where there is no such language or it could not be read.
pub uninterp spec fn chunks_of(lang: Seq<char>, code: Seq<char>) -> Option<Seq<Seq<ChunkView>>>;

/// `syntastica::Processor::process_once`, its highlights given their looks by
/// `syntastica::renderer::resolve_styles` with the theme
/// `syntastica_themes::catppuccin::mocha`. What a set of parsers has made ready
/// changes how long this takes and not what comes out. Nothing is said of how the
/// code is cut into pieces.
#[verifier::external_body]
fn process(set: &LanguageSetImpl, lang: &str, code: &str) -> (r: Option<Vec<Vec<Chunk>>>)
    ensures
        opt_chunks(r) == chunks_of(lang@, code@),
{
    let lang = <Lang as SupportedLanguage<'_, LanguageSetImpl>>::for_name(lang, set).ok()?;
    let found = syntastica::Processor::process_once(code, lang, set).ok()?;
    let lines = syntastica::renderer::resolve_styles(&found, syntastica_themes::catppuccin::mocha());
    Some(lines.iter().map(|l| l.iter().map(|(t, s)| Chunk {
        text: t.to_string(),
        style: s.map(|s| CodeStyle {
            color: s.color().into_components(),
            bg: s.bg().map(|b| b.into_components()),
            bold: s.bold(), italic: s.italic(), underline: s.underline(), strikethrough: s.strikethrough(),
        }),
    }).collect()).collect())
}

/// `LanguageSetImpl::new`: the parsers, none of them made ready.
#[verifier::external_body]
fn new_set() -> (s: LanguageSetImpl) {
    LanguageSetImpl::new()
}

/// The look of a piece of code on the screen.
pub open spec fn shown_style(s: CodeStyle) -> Style {
    Style {
        fg: Some(Color::Rgb(s.color.0, s.color.1, s.color.2)),
        bg: match s.bg {
            Some(b) => Some(Color::Rgb(b.0, b.1, b.2)),
            None => None,
        },
        bold: s.bold,
        dim: false,
        italic: s.italic,
        underlined: s.underline,
        crossed_out: s.strikethrough,
        reversed: false,
    }
}

/// The look of a piece of code on the screen.
pub fn syn_style_to_tui(s: &CodeStyle) -> (r: Style)
    ensures
        r == shown_style(*s),
{
    Style {
        fg: Some(Color::Rgb(s.color.0, s.color.1, s.color.2)),
        bg: match s.bg {
            Some(b) => Some(Color::Rgb(b.0, b.1, b.2)),
            None => None,
        },
        bold: s.bold,
        dim: false,
        italic: s.italic,
        underlined: s.underline,
        crossed_out: s.strikethrough,
        reversed: false,
    }
}

/// A piece of code as it is shown.
pub open spec fn shown_chunk(c: ChunkView) -> SpanView {
    SpanView {
        content: c.text,
        style: match c.style {
            Some(s) => shown_style(s),
            None => style::plain(),
        },
    }
}

/// A line of code as it is shown.
pub open spec fn shown_line(l: Seq<ChunkView>) -> Seq<SpanView> {
    Seq::new(l.len(), |i: int| shown_chunk(l[i]))
}

/// Lines of code as they are shown.
pub open spec fn shown_code(v: Seq<Seq<ChunkView>>) -> Seq<Seq<SpanView>> {
    Seq::new(v.len(), |i: int| shown_line(v[i]))
}

/// Lines without a look of their own as a whole.
pub open spec fn whole_lines(v: Seq<Seq<SpanView>>) -> Seq<StyledView> {
    Seq::new(v.len(), |i: int| StyledView { spans: v[i], style: style::plain() })
}

/// A line of code as it is shown.
fn show_line(line: &Vec<Chunk>) -> (out: Vec<Span>)
    ensures
        style::views(out@) == shown_line(Seq::new(line@.len(), |j: int| line@[j]@)),
{
    let ghost all = Seq::new(line@.len(), |j: int| line@[j]@);
    let mut out: Vec<Span> = Vec::new();
    let mut i: usize = 0;
    while i < line.len()
        invariant
            i <= line.len() == all.len(),
            all == Seq::new(line@.len(), |j: int| line@[j]@),
            style::views(out@) =~= shown_line(all.take(i as int)),
        decreases line.len() - i,
    {
        let looks = match &line[i].style {
            Some(s) => syn_style_to_tui(s),
            None => Style::new(),
        };
        out.push(Span { content: line[i].text.clone(), style: looks });
        assert(style::views(out@) =~= shown_line(all.take(i as int)).push(
            shown_chunk(all[i as int]),
        ));
        assert(shown_line(all.take(i + 1)) =~= shown_line(all.take(i as int)).push(
            shown_chunk(all[i as int]),
        ));
        i += 1;
    }
    assert(all.take(i as int) =~= all);
    out
}

/// Lines of code as they are shown.
pub fn show_code(lines: &Vec<Vec<Chunk>>) -> (out: Vec<Vec<Span>>)
    ensures
        style::line_views(out@) == shown_code(chunk_views(lines@)),
{
    let ghost all = chunk_views(lines@);
    let mut out: Vec<Vec<Span>> = Vec::new();
    let mut i: usize = 0;
    while i < lines.len()
        invariant
            i <= lines.len() == all.len(),
            all == chunk_views(lines@),
            style::line_views(out@) =~= shown_code(all.take(i as int)),
        decreases lines.len() - i,
    {
        let ghost before = style::line_views(out@);
        out.push(show_line(&lines[i]));
        assert(style::line_views(out@) =~= before.push(shown_line(all[i as int])));
        assert(shown_code(all.take(i + 1)) =~= before.push(shown_line(all[i as int])));
        i += 1;
    }
    assert(all.take(i as int) =~= all);
    out
}

/// The first of the words that white space parts; empty where there is none.
pub open spec fn first_word(s: Seq<char>) -> Seq<char> {
    let t = text::trimmed_start(s);
    t.take(word_len(t) as int)
}

/// How many characters stand before the first white space.
pub open spec fn word_len(s: Seq<char>) -> nat
    decreases s.len(),
{
    if s.len() > 0 && !text::is_space(s[0]) {
        1 + word_len(s.drop_first())
    } else {
        0
    }
}

proof fn lemma_word_len(s: Seq<char>, n: nat)
    requires
        n <= s.len(),
        forall|i: int| 0 <= i < n ==> !text::is_space(#[trigger] s[i]),
        n < s.len() ==> text::is_space(s[n as int]),
    ensures
        word_len(s) == n,
    decreases n,
{
    if n > 0 {
        let t = s.drop_first();
        assert(!text::is_space(s[0]));
        assert forall|i: int| 0 <= i < n - 1 implies !text::is_space(#[trigger] t[i]) by {
            assert(t[i] == s[i + 1]);
        }
        lemma_word_len(t, (n - 1) as nat);
    }
}

/// The first of the words that white space parts; empty where there is none.
pub fn leading_word(s: &str) -> (out: String)
    ensures
        out@ == first_word(s@),
{
    let t = text::trim_start(s);
    let v = text::chars(t.as_str());
    let mut n: usize = 0;
    while n < v.len() && !text::space(v[n])
        invariant
            n <= v.len(),
            forall|i: int| 0 <= i < n ==> !text::is_space(#[trigger] v@[i]),
        decreases v.len() - n,
    {
        n += 1;
    }
    proof {
        lemma_word_len(v@, n as nat);
    }
    let out = text::string_of(&v, 0, n);
    assert(out@ =~= v@.take(n as int));
    out
}

/// What is found under `name`: a language of that name, else the language of
/// files of that name.
pub open spec fn lang_under(name: Seq<char>) -> Option<Seq<char>> {
    let low = text::lowered(name);
    match lang_named(low) {
        Some(l) => Some(l),
        None => lang_of_file(low),
    }
}

/// The language that a token stands for: that of the name that was `detected` for
/// it, where there is one and it leads to a language, else that of its first word.
pub open spec fn token_lang(info: Seq<char>, detected: Option<Seq<char>>) -> Option<Seq<char>> {
    let word = first_word(info);
    if word.len() == 0 {
        None
    } else if detected is Some && !text::is_blank(detected->0) && lang_under(detected->0) is Some {
        lang_under(detected->0)
    } else {
        lang_under(word)
    }
}

/// What is found under `name`.
fn find_lang(name: &str) -> (r: Option<String>)
    ensures
        text::opt_view(r) == lang_under(name@),
{
    let low = text::lower(name);
    match lang_for_name(low.as_str()) {
        Some(l) => Some(l),
        None => lang_for_file(low.as_str()),
    }
}

/// The language that a token stands for, with the name that was detected for its
/// first word where one was.
pub fn resolve_lang_token(info: &str, detected: Option<&str>) -> (r: Option<String>)
    ensures
        text::opt_view(r) == token_lang(info@, crate::hash::opt_str(detected)),
{
    let word = leading_word(info);
    let empty = text::chars(word.as_str()).len() == 0;
    if empty {
        return None;
    }
    match detected {
        Some(d) => {
            if !text::blank(d) {
                match find_lang(d) {
                    Some(l) => {
                        return Some(l);
                    },
                    None => {},
                }
            }
        },
        None => {},
    }
    find_lang(word.as_str())
}

/// What is known of a file beside its path: the name detected for the path, and the
/// language detected from the file, with the name detected for that.
pub struct Detected<'a> {
    pub for_path: Option<&'a str>,
    pub from_file: Option<&'a str>,
    pub for_language: Option<&'a str>,
}

/// The language of a file.
pub open spec fn file_lang(
    path: Seq<char>,
    for_path: Option<Seq<char>>,
    from_file: Option<Seq<char>>,
    for_language: Option<Seq<char>>,
) -> Option<Seq<char>> {
    if token_lang(path, for_path) is Some {
        token_lang(path, for_path)
    } else if from_file is Some && token_lang(from_file->0, for_language) is Some {
        token_lang(from_file->0, for_language)
    } else {
        lang_of_file(path)
    }
}

/// The parsers and the theme.
pub struct Highlighter {
    set: LanguageSetImpl,
}

impl Highlighter {
    /// The parsers, none of them made ready.
    pub fn new() -> (h: Self) {
        Highlighter { set: new_set() }
    }

    /// The lines of `code` in colour; nothing where it could not be read as the
    /// language of the name `lang`.
    pub fn highlight_lang(&self, lang: &str, code: &str) -> (r: Option<Vec<Vec<Span>>>)
        ensures
            match r {
                Some(v) => chunks_of(lang@, code@) is Some && style::line_views(v@) == shown_code(
                    chunks_of(lang@, code@)->0,
                ),
                None => chunks_of(lang@, code@) is None,
            },
    {
        match process(&self.set, lang, code) {
            Some(lines) => Some(show_code(&lines)),
            None => None,
        }
    }

    /// The lines of a diff in colour.
    pub fn highlight_diff(&self, code: &str) -> (r: Option<Vec<Vec<Span>>>)
        ensures
            match r {
                Some(v) => chunks_of("diff"@, code@) is Some && style::line_views(v@)
                    == shown_code(chunks_of("diff"@, code@)->0),
                None => chunks_of("diff"@, code@) is None,
            },
    {
        self.highlight_lang("diff", code)
    }

    /// The lines of a diff in colour, each without a look of its own as a whole.
    pub fn highlight_diff_text(&self, code: &str) -> (r: Option<Vec<StyledLine>>)
        ensures
            match r {
                Some(v) => chunks_of("diff"@, code@) is Some && style::styled_views(v@)
                    == whole_lines(shown_code(chunks_of("diff"@, code@)->0)),
                None => chunks_of("diff"@, code@) is None,
            },
    {
        let lines = match self.highlight_diff(code) {
            Some(lines) => lines,
            None => {
                return None;
            },
        };
        let ghost all = style::line_views(lines@);
        let mut out: Vec<StyledLine> = Vec::new();
        let mut i: usize = 0;
        while i < lines.len()
            invariant
                i <= lines.len() == all.len(),
                all == style::line_views(lines@),
                style::styled_views(out@) =~= whole_lines(all.take(i as int)),
            decreases lines.len() - i,
        {
            let ghost before = style::styled_views(out@);
            let line = StyledLine { spans: style::copy_spans(&lines[i]), style: Style::new() };
            out.push(line);
            assert(style::styled_views(out@) =~= before.push(line@));
            assert(whole_lines(all.take(i + 1)) =~= before.push(line@));
            i += 1;
        }
        assert(all.take(i as int) =~= all);
        Some(out)
    }

    /// The language of a file: by its path, else by what was detected from the
    /// file, else by its name or ending.
    pub fn detect_file_lang(&self, path: &str, d: &Detected<'_>) -> (r: Option<String>)
        ensures
            text::opt_view(r) == file_lang(
                path@,
                crate::hash::opt_str(d.for_path),
                crate::hash::opt_str(d.from_file),
                crate::hash::opt_str(d.for_language),
            ),
    {
        match resolve_lang_token(path, d.for_path) {
            Some(l) => {
                return Some(l);
            },
            None => {},
        }
        match d.from_file {
            Some(f) => match resolve_lang_token(f, d.for_language) {
                Some(l) => {
                    return Some(l);
                },
                None => {},
            },
            None => {},
        }
        lang_for_file(path)
    }
}

} // verus!
