//! Syntax highlighting of a code preview: the code is cut into lines (each
//! with its line ending) and each line is highlighted by syntect in turn,
//! with the syntaxes and themes that syntect ships.
use vstd::prelude::*;
use syntect::easy::HighlightLines;
use syntect::highlighting::{Theme, ThemeSet};
use syntect::parsing::{SyntaxReference, SyntaxSet};
use crate::text::{chars_of, seq_starts_with, string_from_chars};

verus! {

#[verifier::external_type_specification]
#[verifier::external_body]
pub struct ExSyntaxSet(SyntaxSet);

#[verifier::external_type_specification]
#[verifier::external_body]
pub struct ExSyntaxReference(SyntaxReference);

#[verifier::external_type_specification]
#[verifier::external_body]
pub struct ExThemeSet(ThemeSet);

#[verifier::external_type_specification]
#[verifier::external_body]
pub struct ExTheme(Theme);

#[verifier::external_type_specification]
#[verifier::external_body]
pub struct ExHighlightLines<'a>(HighlightLines<'a>);

/// A piece of highlighted text: its colour (red, green, blue) and its text.
pub type Span = ((u8, u8, u8), String);

/// A piece of highlighted text as a value: its colour and its characters.
pub type Piece = ((u8, u8, u8), Seq<char>);

/// Some spans as pieces.
pub open spec fn span_views(spans: Seq<Span>) -> Seq<Piece> {
    spans.map_values(|s: Span| (s.0, s.1@))
}

/// The texts of some pieces, one after the other.
pub open spec fn piece_text(pieces: Seq<Piece>) -> Seq<char>
    decreases pieces.len(),
{
    if pieces.len() == 0 {
        Seq::empty()
    } else {
        piece_text(pieces.drop_last()) + pieces.last().1
    }
}

/// The name of the theme that code previews use when the set has it.
pub const PREVIEW_THEME: &'static str = "base16-ocean.dark";

/// The name of the syntax used for extensions that no syntax claims.
pub const PLAIN_TEXT_SYNTAX: &'static str = "Plain Text";

/// The syntaxes and themes that syntect ships (its default dumps, the syntax
/// set in the form that keeps line endings).  Its fields are private and it is
/// only made by `load_defaults`, so every syntax and theme the library hands
/// to syntect comes from those dumps.
pub struct Highlighting {
    syntaxes: SyntaxSet,
    themes: ThemeSet,
}

/// Calls `SyntaxSet::load_defaults_newlines`, which unpacks the syntaxes that
/// syntect ships.  Nothing is stated of the value: it is opaque.
#[verifier::external_body]
fn default_syntaxes() -> SyntaxSet {
    SyntaxSet::load_defaults_newlines()
}

/// Calls `ThemeSet::load_defaults`, which unpacks the themes that syntect
/// ships.  Nothing is stated of the value: it is opaque.
#[verifier::external_body]
fn default_themes() -> ThemeSet {
    ThemeSet::load_defaults()
}

impl Highlighting {
    /// The syntaxes and themes that syntect ships.
    pub fn load_defaults() -> Highlighting {
        Highlighting { syntaxes: default_syntaxes(), themes: default_themes() }
    }
}

/// The name of the syntax that `SyntaxSet::find_syntax_by_extension` gives
/// for an extension in syntect's default syntax set, if any.
pub uninterp spec fn default_syntax_for_extension(extension: Seq<char>) -> Option<Seq<char>>;

/// What `HighlightLines::highlight_line` gives, with syntect's default sets,
/// for a line, on a highlighter made for the syntax and the theme of these
/// names and fed the lines `before` first: the pieces with their foreground
/// colours, or `None` where syntect reports an error.  The default syntaxes
/// have distinct names, so a name picks one syntax.
pub uninterp spec fn default_highlighted_line(
    syntax: Seq<char>,
    theme: Seq<char>,
    before: Seq<Seq<char>>,
    line: Seq<char>,
) -> Option<Seq<Piece>>;

/// Calls `SyntaxSet::find_syntax_by_extension` on the default syntaxes: the
/// last syntax that lists the extension (ignoring ASCII case), if any, with
/// its name.  The contract says that its name is the one named above for the
/// extension; since the set is always the default one, the name depends on
/// the extension alone.
#[verifier::external_body]
fn find_syntax_by_extension<'a>(h: &'a Highlighting, extension: &str) -> (r: Option<(String, &'a SyntaxReference)>)
    ensures
        r matches Some(p) ==> default_syntax_for_extension(extension@) == Some(p.0@),
        r is None ==> default_syntax_for_extension(extension@) is None,
{
    h.syntaxes.find_syntax_by_extension(extension).map(|s| (s.name.clone(), s))
}

/// Calls `SyntaxSet::find_syntax_plain_text` on the default syntaxes, with the
/// syntax's name.  It looks the syntax up by the name "Plain Text", which the
/// default set has (syntect panics on a set without it), so the name is that.
#[verifier::external_body]
fn plain_text_syntax<'a>(h: &'a Highlighting) -> (r: (String, &'a SyntaxReference))
    ensures
        r.0@ == PLAIN_TEXT_SYNTAX@,
{
    let s = h.syntaxes.find_syntax_plain_text();
    (s.name.clone(), s)
}

/// The names of the themes that syntect ships, as its documentation of
/// `ThemeSet::load_defaults` lists them (the keys of `ThemeSet::themes`).
pub open spec fn is_default_theme(name: Seq<char>) -> bool {
    ||| name == "base16-ocean.dark"@
    ||| name == "base16-eighties.dark"@
    ||| name == "base16-mocha.dark"@
    ||| name == "base16-ocean.light"@
    ||| name == "InspiredGitHub"@
    ||| name == "Solarized (dark)"@
    ||| name == "Solarized (light)"@
}

/// Looks a theme up by name in `ThemeSet::themes` of the default themes (a
/// `BTreeMap::get`): there is one exactly when the name is one of those that
/// `ThemeSet::load_defaults` is documented to load.
#[verifier::external_body]
fn theme_named<'a>(h: &'a Highlighting, name: &str) -> (r: Option<&'a Theme>)
    ensures
        r is Some <==> is_default_theme(name@),
{
    h.themes.themes.get(name)
}

/// Calls `HighlightLines::new`, which makes a highlighter for a syntax and a
/// theme, started at the syntax's "__start" context; every syntax of the
/// default set, which was loaded from syntax definitions, has one.  Nothing
/// is stated of it: the value is opaque.
#[verifier::external_body]
fn new_highlight_lines<'a>(syntax: &SyntaxReference, theme: &'a Theme) -> HighlightLines<'a> {
    HighlightLines::new(syntax, theme)
}

/// A highlighter over the default sets, with the names of its syntax and its
/// theme and the lines it has been fed, as ghost values.  It is only made by
/// `make_highlighter` and only fed by `feed_line`, which keep those values
/// true of the syntect highlighter inside.
struct Highlighter<'a> {
    lines: HighlightLines<'a>,
    set: &'a SyntaxSet,
    syntax: Ghost<Seq<char>>,
    theme: Ghost<Seq<char>>,
    fed: Ghost<Seq<Seq<char>>>,
}

/// Calls `HighlightLines::highlight_line` with the default syntax set: it
/// highlights the next line of a text and gives its pieces with their
/// foreground colours (`None` where syntect reports an error).  The result is
/// the one named above for the highlighter's syntax, theme and the lines fed
/// before; the pieces are consecutive slices of the line from its start.
/// The ghost values are left as they are (`feed_line` records the line).
#[verifier::external_body]
fn highlight_line(highlighter: &mut Highlighter, line: &str) -> (r: Option<Vec<Span>>)
    ensures
        r matches Some(v) ==> default_highlighted_line(
            old(highlighter).syntax@,
            old(highlighter).theme@,
            old(highlighter).fed@,
            line@,
        ) == Some(span_views(v@)),
        r is None ==> default_highlighted_line(
            old(highlighter).syntax@,
            old(highlighter).theme@,
            old(highlighter).fed@,
            line@,
        ) is None,
        r matches Some(v) ==> seq_starts_with(line@, piece_text(span_views(v@))),
        final(highlighter).syntax == old(highlighter).syntax,
        final(highlighter).theme == old(highlighter).theme,
        final(highlighter).fed == old(highlighter).fed,
{
    let set = highlighter.set;
    highlighter.lines.highlight_line(line, set).ok().map(|spans| {
        spans
            .into_iter()
            .map(|(style, text)| ((style.foreground.r, style.foreground.g, style.foreground.b), text.to_string()))
            .collect()
    })
}

/// The syntax that code with this extension is highlighted with: the one the
/// default set gives for the extension, else "Plain Text".
pub open spec fn chosen_syntax(extension: Seq<char>) -> Seq<char> {
    match default_syntax_for_extension(extension) {
        Some(s) => s,
        None => PLAIN_TEXT_SYNTAX@,
    }
}

/// The highlighter for code with this extension, with the chosen syntax,
/// the theme `PREVIEW_THEME` (one of the default themes) and nothing fed yet.
fn make_highlighter<'a>(h: &'a Highlighting, extension: &str) -> (hl: Highlighter<'a>)
    ensures
        hl.syntax@ == chosen_syntax(extension@),
        hl.theme@ == PREVIEW_THEME@,
        hl.fed@ == Seq::<Seq<char>>::empty(),
{
    let (syntax_name, syntax) = match find_syntax_by_extension(h, extension) {
        Some(p) => p,
        None => plain_text_syntax(h),
    };
    let theme = theme_named(h, PREVIEW_THEME).unwrap();
    Highlighter {
        lines: new_highlight_lines(syntax, theme),
        set: &h.syntaxes,
        syntax: Ghost(syntax_name@),
        theme: Ghost(PREVIEW_THEME@),
        fed: Ghost(Seq::empty()),
    }
}

/// Highlights the next line and records it as fed.
fn feed_line(highlighter: &mut Highlighter, line: &str) -> (r: Option<Vec<Span>>)
    ensures
        r matches Some(v) ==> default_highlighted_line(
            old(highlighter).syntax@,
            old(highlighter).theme@,
            old(highlighter).fed@,
            line@,
        ) == Some(span_views(v@)),
        r is None ==> default_highlighted_line(
            old(highlighter).syntax@,
            old(highlighter).theme@,
            old(highlighter).fed@,
            line@,
        ) is None,
        final(highlighter).syntax == old(highlighter).syntax,
        final(highlighter).theme == old(highlighter).theme,
        final(highlighter).fed@ == old(highlighter).fed@.push(line@),
{
    let r = highlight_line(highlighter, line);
    highlighter.fed = Ghost(highlighter.fed@.push(line@));
    r
}

/// The lines of a text, each with its "\n" if it has one (what
/// `syntect::util::LinesWithEndings` yields): a line ends after each "\n",
/// and the text after the last "\n", if any, is the last line.
pub open spec fn lines_with_endings(s: Seq<char>) -> Seq<Seq<char>>
    decreases s.len(),
{
    if s.len() == 0 {
        Seq::empty()
    } else {
        let prev = lines_with_endings(s.drop_last());
        if prev.len() == 0 || prev.last().last() == '\n' {
            prev.push(seq![s.last()])
        } else {
            prev.update(prev.len() - 1, prev.last().push(s.last()))
        }
    }
}

/// Some lines one after the other.
pub open spec fn joined(lines: Seq<Seq<char>>) -> Seq<char>
    decreases lines.len(),
{
    if lines.len() == 0 {
        Seq::empty()
    } else {
        joined(lines.drop_last()) + lines.last()
    }
}


proof fn lemma_lines_nonempty(s: Seq<char>)
    ensures
        forall|i: int| 0 <= i < lines_with_endings(s).len() ==> #[trigger] lines_with_endings(s)[i].len() > 0,
    decreases s.len(),
{
    if s.len() > 0 {
        lemma_lines_nonempty(s.drop_last());
        let prev = lines_with_endings(s.drop_last());
        let cur = lines_with_endings(s);
        assert forall|i: int| 0 <= i < cur.len() implies #[trigger] cur[i].len() > 0 by {
            if i < prev.len() {
                assert(prev[i].len() > 0);
            }
        }
    }
}

/// Law: the lines of a text, one after the other, give the text back.
pub proof fn law_lines_rejoin(s: Seq<char>)
    ensures
        joined(lines_with_endings(s)) == s,
    decreases s.len(),
{
    if s.len() > 0 {
        law_lines_rejoin(s.drop_last());
        let prev = lines_with_endings(s.drop_last());
        lemma_lines_nonempty(s.drop_last());
        if prev.len() == 0 || prev.last().last() == '\n' {
            assert(prev.push(seq![s.last()]).drop_last() =~= prev);
        } else {
            let upd = prev.update(prev.len() - 1, prev.last().push(s.last()));
            assert(upd.drop_last() =~= prev.drop_last());
        }
        assert(s.drop_last().push(s.last()) =~= s);
    }
}

/// The lines of a text, each with its "\n".
pub fn split_lines_with_endings(text: &str) -> (lines: Vec<String>)
    ensures
        crate::tree::string_views(lines@) == lines_with_endings(text@),
{
    let cs = chars_of(text);
    let mut lines: Vec<String> = Vec::new();
    let mut start: usize = 0;
    let mut i: usize = 0;
    while i < cs.len()
        invariant
            start <= i <= cs@.len(),
            cs@ == text@,
            forall|j: int| start <= j < i ==> cs@[j] != '\n',
            start == i || cs@[i - 1] != '\n',
            start > 0 ==> cs@[start - 1] == '\n',
            ({
                let done = crate::tree::string_views(lines@);
                if start == i {
                    done == lines_with_endings(cs@.take(i as int))
                } else {
                    done.push(cs@.subrange(start as int, i as int)) == lines_with_endings(cs@.take(i as int))
                }
            }),
            i > 0 && start == i ==> lines@.len() > 0,
        decreases cs@.len() - i,
    {
        let ghost done = crate::tree::string_views(lines@);
        proof {
            assert(cs@.take(i as int + 1).drop_last() =~= cs@.take(i as int));
            assert(cs@.take(i as int + 1).last() == cs@[i as int]);
            lemma_lines_nonempty(cs@.take(i as int));
            if start == i && i > 0 {
                let prev = lines_with_endings(cs@.take(i as int));
                assert(prev.last() == done.last());
                assert(done.last() == lines@[lines@.len() - 1]@);
            }
        }
        if cs[i] == '\n' {
            let line = string_from_chars(&cs, start, i + 1);
            lines.push(line);
            proof {
                assert(crate::tree::string_views(lines@) =~= done.push(cs@.subrange(start as int, i as int + 1)));
                if start < i {
                    let prev = lines_with_endings(cs@.take(i as int));
                    assert(prev == done.push(cs@.subrange(start as int, i as int)));
                    assert(prev.last().last() == cs@[i as int - 1]);
                    assert(cs@.subrange(start as int, i as int + 1) =~= cs@.subrange(start as int, i as int).push(cs@[i as int]));
                    assert(done.push(cs@.subrange(start as int, i as int + 1)) =~= prev.update(
                        prev.len() - 1,
                        prev.last().push(cs@[i as int]),
                    ));
                } else {
                    assert(cs@.subrange(start as int, i as int + 1) =~= seq![cs@[i as int]]);
                }
            }
            start = i + 1;
        } else {
            proof {
                let prev = lines_with_endings(cs@.take(i as int));
                if start < i {
                    assert(prev == done.push(cs@.subrange(start as int, i as int)));
                    assert(prev.last().last() == cs@[i as int - 1]);
                    assert(cs@.subrange(start as int, i as int + 1) =~= cs@.subrange(start as int, i as int).push(cs@[i as int]));
                    assert(done.push(cs@.subrange(start as int, i as int + 1)) =~= prev.update(
                        prev.len() - 1,
                        prev.last().push(cs@[i as int]),
                    ));
                } else {
                    assert(cs@.subrange(start as int, i as int + 1) =~= seq![cs@[i as int]]);
                }
            }
        }
        i = i + 1;
    }
    if start < cs.len() {
        let line = string_from_chars(&cs, start, cs.len());
        let ghost done = crate::tree::string_views(lines@);
        lines.push(line);
        assert(crate::tree::string_views(lines@) =~= done.push(cs@.subrange(start as int, i as int)));
    }
    assert(cs@.take(i as int) =~= cs@);
    lines
}

/// The pieces that some lines of code are highlighted into with this syntax
/// and theme: each line in turn, on a highlighter fed the lines before it,
/// adds its pieces (none where syntect reports an error).
pub open spec fn highlighted_code(syntax: Seq<char>, theme: Seq<char>, lines: Seq<Seq<char>>) -> Seq<Piece>
    decreases lines.len(),
{
    if lines.len() == 0 {
        Seq::empty()
    } else {
        let before = lines.drop_last();
        highlighted_code(syntax, theme, before) + match default_highlighted_line(syntax, theme, before, lines.last()) {
            Some(v) => v,
            None => Seq::empty(),
        }
    }
}

/// syntect highlights `line` whole, on a highlighter with this syntax and
/// theme that was fed `before`: without an error, and the pieces' texts give
/// the line back.
pub open spec fn highlights_whole(syntax: Seq<char>, theme: Seq<char>, before: Seq<Seq<char>>, line: Seq<char>) -> bool {
    match default_highlighted_line(syntax, theme, before, line) {
        Some(v) => piece_text(v) == line,
        None => false,
    }
}

proof fn lemma_piece_text_concat(a: Seq<Piece>, b: Seq<Piece>)
    ensures
        piece_text(a + b) == piece_text(a) + piece_text(b),
    decreases b.len(),
{
    if b.len() == 0 {
        assert(a + b =~= a);
    } else {
        lemma_piece_text_concat(a, b.drop_last());
        assert((a + b).drop_last() =~= a + b.drop_last());
    }
}

proof fn lemma_whole_lines(syntax: Seq<char>, theme: Seq<char>, lines: Seq<Seq<char>>)
    requires
        forall|i: int| 0 <= i < lines.len() ==> #[trigger] highlights_whole(syntax, theme, lines.take(i), lines[i]),
    ensures
        piece_text(highlighted_code(syntax, theme, lines)) == joined(lines),
    decreases lines.len(),
{
    if lines.len() > 0 {
        let before = lines.drop_last();
        assert forall|i: int| 0 <= i < before.len() implies #[trigger] highlights_whole(syntax, theme, before.take(i), before[i]) by {
            assert(before.take(i) =~= lines.take(i));
            assert(before[i] == lines[i]);
        }
        lemma_whole_lines(syntax, theme, before);
        assert(lines.take(lines.len() - 1) =~= before);
        let last = default_highlighted_line(syntax, theme, lines.take(lines.len() - 1), lines[lines.len() - 1]);
        assert(highlights_whole(syntax, theme, lines.take(lines.len() - 1), lines[lines.len() - 1]));
        lemma_piece_text_concat(highlighted_code(syntax, theme, before), last->0);
    }
}

/// Law: where syntect highlights every line of the code whole, the pieces'
/// texts, one after the other, give the code back.
pub proof fn law_whole_lines_give_code(syntax: Seq<char>, theme: Seq<char>, code: Seq<char>)
    requires
        forall|i: int| 0 <= i < lines_with_endings(code).len() ==> #[trigger] highlights_whole(
            syntax,
            theme,
            lines_with_endings(code).take(i),
            lines_with_endings(code)[i],
        ),
    ensures
        piece_text(highlighted_code(syntax, theme, lines_with_endings(code))) == code,
{
    lemma_whole_lines(syntax, theme, lines_with_endings(code));
    law_lines_rejoin(code);
}

/// Appends what highlighting one line gave: its spans, in order, or nothing
/// where syntect reported an error.
pub fn append_line_spans(spans: &mut Vec<Span>, line: Option<Vec<Span>>)
    ensures
        span_views(final(spans)@) == span_views(old(spans)@) + match line {
            Some(v) => span_views(v@),
            None => Seq::empty(),
        },
        line is None ==> final(spans)@ == old(spans)@,
        line matches Some(v) ==> final(spans)@ == old(spans)@ + v@,
{
    let ghost before = spans@;
    match line {
        Some(line_spans) => {
            let mut k: usize = 0;
            while k < line_spans.len()
                invariant
                    k <= line_spans@.len(),
                    spans@ == before + line_spans@.take(k as int),
                decreases line_spans@.len() - k,
            {
                let (color, text) = &line_spans[k];
                spans.push((*color, text.clone()));
                assert(spans@ =~= before + line_spans@.take(k as int + 1));
                k = k + 1;
            }
            assert(line_spans@.take(k as int) =~= line_spans@);
            assert(span_views(spans@) =~= span_views(before) + span_views(line_spans@));
        },
        None => {
            assert(span_views(before) + Seq::empty() =~= span_views(before));
        },
    }
}

/// The highlighted spans of some code, for its file extension, with syntect's
/// default sets: the syntax is the one the set gives for the extension, else
/// "Plain Text", and the theme is `PREVIEW_THEME`, which the default themes
/// always have (so no other theme is ever needed).  Each line (with its "\n")
/// is highlighted in turn and its spans are appended; a line that syntect
/// fails on adds none.
pub fn highlight_code(code: &str, extension: &str, highlighting: &Highlighting) -> (spans: Vec<Span>)
    ensures
        span_views(spans@) == highlighted_code(chosen_syntax(extension@), PREVIEW_THEME@, lines_with_endings(code@)),
{
    let mut spans: Vec<Span> = Vec::new();
    let lines = split_lines_with_endings(code);
    let ghost ls = lines_with_endings(code@);
    let mut highlighter = make_highlighter(highlighting, extension);
    let ghost syntax = highlighter.syntax@;
    let ghost theme = highlighter.theme@;
    let mut i: usize = 0;
    assert(ls.take(0) =~= Seq::<Seq<char>>::empty());
    while i < lines.len()
        invariant
            i <= lines@.len() == ls.len(),
            crate::tree::string_views(lines@) == ls,
            highlighter.syntax@ == syntax,
            highlighter.theme@ == theme,
            highlighter.fed@ == ls.take(i as int),
            span_views(spans@) == highlighted_code(syntax, theme, ls.take(i as int)),
        decreases lines@.len() - i,
    {
        assert(lines@[i as int]@ == ls[i as int]);
        assert(ls.take(i as int + 1).drop_last() =~= ls.take(i as int));
        assert(ls.take(i as int + 1).last() == ls[i as int]);
        let highlighted = feed_line(&mut highlighter, lines[i].as_str());
        assert(highlighter.fed@ =~= ls.take(i as int + 1));
        append_line_spans(&mut spans, highlighted);
        assert(span_views(spans@) =~= highlighted_code(syntax, theme, ls.take(i as int + 1)));
        i = i + 1;
    }
    assert(ls.take(i as int) =~= ls);
    spans
}

} // verus!
