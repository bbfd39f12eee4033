//! The atomic rendering instructions that nodes emit to describe their own
//! on-screen representation, and the renderer that turns a flattened token
//! stream into plain text.

use vstd::prelude::*;

use crate::arena::Arena;
use crate::ast::{arena_children_wf, display_tokens, rendered_text, stream_toks, stream_view, Ast};

verus! {

/// How many spaces correspond to one indentation level.
pub const INDENT_WIDTH: usize = 4;

/// A category of text that should be syntax highlighted the same colour.
///
/// This is an open, string-valued tag (for example `"default"`, `"const"`,
/// `"literal"`, `"keyword"`, `"error"`); consumers map categories to
/// presentation attributes and must fall back to a default presentation for
/// a tag they do not recognise.
pub type SyntaxCategory = &'static str;

/// A single piece of a node that can be rendered to the screen.
#[derive(Debug, Clone, PartialEq, Eq, Hash)]
pub enum DisplayToken {
    /// Some text should be rendered to the screen.
    Text(String, SyntaxCategory),
    /// Add some number of spaces worth of whitespace.
    Whitespace(usize),
    /// Put the next token onto a new line.
    Newline,
    /// Add another indent level to the code.
    Indent,
    /// Remove an indent level from the code.
    Dedent,
}

/// The mathematical value of a [`DisplayToken`]: the same tags, with every
/// string replaced by its character sequence.
pub enum TokenView {
    Text(Seq<char>, Seq<char>),
    Whitespace(usize),
    Newline,
    Indent,
    Dedent,
}

impl View for DisplayToken {
    type V = TokenView;

    open spec fn view(&self) -> TokenView {
        match self {
            DisplayToken::Text(s, cat) => TokenView::Text(s@, cat@),
            DisplayToken::Whitespace(n) => TokenView::Whitespace(*n),
            DisplayToken::Newline => TokenView::Newline,
            DisplayToken::Indent => TokenView::Indent,
            DisplayToken::Dedent => TokenView::Dedent,
        }
    }
}

/// A wrapper for [`DisplayToken`] that is returned by
/// [`Ast::display_tokens_rec`](crate::ast::Ast::display_tokens_rec): a node
/// describes itself as an ordered interleaving of literal tokens and
/// references (arena indices) to children whose own token streams are to be
/// spliced in at that point.
#[derive(Debug, Clone, PartialEq, Eq)]
pub enum RecTok {
    Tok(DisplayToken),
    Child(usize),
}

/// The mathematical value of a [`RecTok`].
pub enum RecTokView {
    Tok(TokenView),
    Child(usize),
}

impl View for RecTok {
    type V = RecTokView;

    open spec fn view(&self) -> RecTokView {
        match self {
            RecTok::Tok(t) => RecTokView::Tok(t@),
            RecTok::Child(c) => RecTokView::Child(*c),
        }
    }
}

/// The views of a sequence of self-description units.
pub open spec fn rec_toks_view(toks: Seq<RecTok>) -> Seq<RecTokView> {
    toks.map_values(|rt: RecTok| rt@)
}

/// A sequence of `n` space characters.
pub open spec fn spaces(n: nat) -> Seq<char> {
    Seq::new(n, |k: int| ' ')
}

/// The text that a single token contributes, given the current indentation
/// `level`: literal text and whitespace are emitted verbatim, a newline is
/// followed by the current indentation, and indent markers emit nothing.
pub open spec fn token_text(t: TokenView, level: nat) -> Seq<char> {
    match t {
        TokenView::Text(s, cat) => s,
        TokenView::Whitespace(n) => spaces(n as nat),
        TokenView::Newline => seq!['\n'] + spaces(level * (INDENT_WIDTH as nat)),
        TokenView::Indent => Seq::empty(),
        TokenView::Dedent => Seq::empty(),
    }
}

/// The indentation level after processing one token: `Indent` adds a level,
/// `Dedent` removes one (defensively saturating at zero).
pub open spec fn next_level(t: TokenView, level: nat) -> nat {
    match t {
        TokenView::Indent => level + 1,
        TokenView::Dedent => if level == 0 { 0 } else { (level - 1) as nat },
        _ => level,
    }
}

/// The text that a token stream renders to, starting from indentation
/// `level`.
pub open spec fn render_toks(toks: Seq<TokenView>, level: nat) -> Seq<char>
    decreases toks.len(),
{
    if toks.len() == 0 {
        Seq::empty()
    } else {
        token_text(toks[0], level) + render_toks(toks.drop_first(), next_level(toks[0], level))
    }
}

/// Append `n` space characters to a string.
fn push_spaces(string: &mut String, n: usize)
    ensures
        final(string)@ == old(string)@ + spaces(n as nat),
{
    let mut j: usize = 0;
    while j < n
        invariant
            j <= n,
            string@ == old(string)@ + spaces(j as nat),
        decreases n - j,
    {
        string.append(" ");
        proof {
            reveal_strlit(" ");
            assert(" "@ =~= spaces(1));
            assert(old(string)@ + spaces(j as nat) + spaces(1) =~= old(string)@ + spaces(
                (j + 1) as nat,
            ));
        }
        j += 1;
    }
    proof {
        assert(string@ =~= old(string)@ + spaces(n as nat));
    }
}

/// Write a stream of display tokens to a string.
///
/// The renderer walks the flattened token stream of the node at `root`,
/// appending literal text and whitespace verbatim and maintaining the
/// current indentation: a newline is followed by the indentation in force,
/// `Indent` widens it by [`INDENT_WIDTH`] spaces and `Dedent` narrows it by
/// the same amount (defensively stopping at zero rather than failing).
pub fn write_tokens<N: Ast>(
    arena: &Arena<N>,
    root: usize,
    string: &mut String,
    format_style: &N::FormatStyle,
)
    requires
        arena_children_wf(arena@),
        root < arena@.len(),
    ensures
        final(string)@ == old(string)@ + rendered_text(arena@, root, format_style),
{
    let pairs = display_tokens(arena, root, format_style);
    let ghost toks = stream_toks(stream_view(pairs@));
    let n = pairs.len();
    let mut level: usize = 0;
    let mut k: usize = 0;
    proof {
        assert(toks.skip(0) =~= toks);
    }
    while k < n
        invariant
            n == pairs@.len(),
            k <= n,
            level <= k,
            toks == stream_toks(stream_view(pairs@)),
            old(string)@ + render_toks(toks, 0) == string@ + render_toks(
                toks.skip(k as int),
                level as nat,
            ),
        decreases n - k,
    {
        let ghost pre = string@;
        let ghost lv = level;
        let ghost rest = toks.skip(k as int);
        proof {
            assert(rest.len() == toks.len() - k);
            assert(rest.drop_first() =~= toks.skip(k as int + 1));
            assert(rest[0] == toks[k as int]);
            assert(toks[k as int] == pairs@[k as int].1@);
        }
        let p = &pairs[k];
        match &p.1 {
            DisplayToken::Text(s, _cat) => {
                string.append(s.as_str());
            },
            DisplayToken::Whitespace(count) => {
                push_spaces(string, *count);
            },
            DisplayToken::Newline => {
                proof {
                    reveal_strlit("\n");
                }
                string.append("\n");
                push_indent(string, level);
                proof {
                    assert(string@ =~= pre + (seq!['\n'] + spaces(
                        (level as nat) * (INDENT_WIDTH as nat),
                    )));
                }
            },
            DisplayToken::Indent => {
                level = level + 1;
            },
            DisplayToken::Dedent => {
                if level > 0 {
                    level = level - 1;
                }
            },
        }
        proof {
            assert(string@ =~= pre + token_text(rest[0], lv as nat));
            assert(level as nat == next_level(rest[0], lv as nat));
            assert(render_toks(rest, lv as nat) == token_text(rest[0], lv as nat) + render_toks(
                rest.drop_first(),
                next_level(rest[0], lv as nat),
            ));
            assert(pre + render_toks(rest, lv as nat) =~= (pre + token_text(rest[0], lv as nat))
                + render_toks(rest.drop_first(), next_level(rest[0], lv as nat)));
        }
        k += 1;
    }
    proof {
        assert(toks.skip(n as int) =~= Seq::<TokenView>::empty());
        assert(string@ + render_toks(Seq::<TokenView>::empty(), level as nat) =~= string@);
    }
}

/// Append one indentation string: `level` levels of [`INDENT_WIDTH`] spaces.
fn push_indent(string: &mut String, level: usize)
    ensures
        final(string)@ == old(string)@ + spaces((level as nat) * (INDENT_WIDTH as nat)),
{
    let mut j: usize = 0;
    while j < level
        invariant
            j <= level,
            string@ == old(string)@ + spaces((j as nat) * (INDENT_WIDTH as nat)),
        decreases level - j,
    {
        push_spaces(string, INDENT_WIDTH);
        proof {
            assert((j as nat) * (INDENT_WIDTH as nat) + (INDENT_WIDTH as nat) == ((j + 1) as nat)
                * (INDENT_WIDTH as nat)) by (nonlinear_arith);
            assert(old(string)@ + spaces((j as nat) * (INDENT_WIDTH as nat)) + spaces(
                INDENT_WIDTH as nat,
            ) =~= old(string)@ + spaces(((j + 1) as nat) * (INDENT_WIDTH as nat)));
        }
        j += 1;
    }
    proof {
        assert(string@ =~= old(string)@ + spaces((level as nat) * (INDENT_WIDTH as nat)));
    }
}


/// The number of `Indent` markers among the literal tokens of a node's
/// self-description.
pub open spec fn rec_indents(toks: Seq<RecTokView>) -> int
    decreases toks.len(),
{
    if toks.len() == 0 {
        0
    } else {
        (if toks[0] matches RecTokView::Tok(TokenView::Indent) {
            1int
        } else {
            0int
        }) + rec_indents(toks.drop_first())
    }
}

/// The number of `Dedent` markers among the literal tokens of a node's
/// self-description.
pub open spec fn rec_dedents(toks: Seq<RecTokView>) -> int
    decreases toks.len(),
{
    if toks.len() == 0 {
        0
    } else {
        (if toks[0] matches RecTokView::Tok(TokenView::Dedent) {
            1int
        } else {
            0int
        }) + rec_dedents(toks.drop_first())
    }
}

/// The number of `Indent` tokens in a flattened stream.
pub open spec fn stream_indents(s: Seq<(usize, TokenView)>) -> int
    decreases s.len(),
{
    if s.len() == 0 {
        0
    } else {
        (if s[0].1 is Indent {
            1int
        } else {
            0int
        }) + stream_indents(s.drop_first())
    }
}

/// The number of `Dedent` tokens in a flattened stream.
pub open spec fn stream_dedents(s: Seq<(usize, TokenView)>) -> int
    decreases s.len(),
{
    if s.len() == 0 {
        0
    } else {
        (if s[0].1 is Dedent {
            1int
        } else {
            0int
        }) + stream_dedents(s.drop_first())
    }
}

/// Both token counts distribute over concatenation of streams.
pub proof fn lemma_stream_counts_add(a: Seq<(usize, TokenView)>, b: Seq<(usize, TokenView)>)
    ensures
        stream_indents(a + b) == stream_indents(a) + stream_indents(b),
        stream_dedents(a + b) == stream_dedents(a) + stream_dedents(b),
    decreases a.len(),
{
    if a.len() == 0 {
        assert(a + b =~= b);
    } else {
        assert((a + b).drop_first() =~= a.drop_first() + b);
        assert((a + b)[0] == a[0]);
        lemma_stream_counts_add(a.drop_first(), b);
    }
}


/// Both self-description marker counts distribute over concatenation.
pub proof fn lemma_rec_counts_add(a: Seq<RecTokView>, b: Seq<RecTokView>)
    ensures
        rec_indents(a + b) == rec_indents(a) + rec_indents(b),
        rec_dedents(a + b) == rec_dedents(a) + rec_dedents(b),
    decreases a.len(),
{
    if a.len() == 0 {
        assert(a + b =~= b);
    } else {
        assert((a + b).drop_first() =~= a.drop_first() + b);
        assert((a + b)[0] == a[0]);
        lemma_rec_counts_add(a.drop_first(), b);
    }
}

/// The marker counts of a single self-description unit.
pub proof fn lemma_rec_counts_single(t: RecTokView)
    ensures
        rec_indents(seq![t]) == (if t matches RecTokView::Tok(TokenView::Indent) {
            1int
        } else {
            0int
        }),
        rec_dedents(seq![t]) == (if t matches RecTokView::Tok(TokenView::Dedent) {
            1int
        } else {
            0int
        }),
{
    assert(seq![t].drop_first() =~= Seq::<RecTokView>::empty());
    assert(rec_indents(Seq::<RecTokView>::empty()) == 0);
    assert(rec_dedents(Seq::<RecTokView>::empty()) == 0);
}

} // verus!
