//! A JSON tree grammar: an implementation of the node contract for JSON
//! values, with a compact and a pretty (indented) rendering style.

use vstd::prelude::*;

use crate::arena::Arena;
use crate::ast::{Ast, DeleteError, InsertError};
use crate::display_token::{rec_dedents, rec_indents, rec_toks_view, DisplayToken, RecTok,
    RecTokView, TokenView};

verus! {

/// A JSON syntax-tree node.  Children are indices into the arena that owns
/// the tree.  An object's children are fields; a field's two children are
/// its key (a string node) and its value; a root holds exactly one child,
/// the document's top-level value.
#[derive(Debug, Clone, PartialEq, Eq, Hash)]
pub enum Json {
    True,
    False,
    Str(String),
    Array(Vec<usize>),
    Object(Vec<usize>),
    Field(Vec<usize>),
    Root(Vec<usize>),
}

/// The ways a JSON tree can be rendered: everything on one line, or one
/// array element or object field per line with indentation.
#[derive(Debug, Clone, PartialEq, Eq)]
pub enum JsonFormat {
    Compact,
    Pretty,
}

/// One self-description unit per child, with nothing in between.
pub open spec fn children_only(kids: Seq<usize>) -> Seq<RecTokView>
    decreases kids.len(),
{
    if kids.len() == 0 {
        Seq::empty()
    } else {
        seq![RecTokView::Child(kids[0])] + children_only(kids.drop_first())
    }
}

/// A comma and a space before each remaining child.
pub open spec fn comma_sep(kids: Seq<usize>) -> Seq<RecTokView>
    decreases kids.len(),
{
    if kids.len() == 0 {
        Seq::empty()
    } else {
        seq![
            RecTokView::Tok(TokenView::Text(","@, "default"@)),
            RecTokView::Tok(TokenView::Whitespace(1)),
            RecTokView::Child(kids[0]),
        ] + comma_sep(kids.drop_first())
    }
}

/// A comma and a line break before each remaining child.
pub open spec fn pretty_sep(kids: Seq<usize>) -> Seq<RecTokView>
    decreases kids.len(),
{
    if kids.len() == 0 {
        Seq::empty()
    } else {
        seq![
            RecTokView::Tok(TokenView::Text(","@, "default"@)),
            RecTokView::Tok(TokenView::Newline),
            RecTokView::Child(kids[0]),
        ] + pretty_sep(kids.drop_first())
    }
}

/// The inside of a bracketed list: children separated by `", "` in the
/// compact style; in the pretty style each child on its own indented line.
pub open spec fn list_body(kids: Seq<usize>, format_style: JsonFormat) -> Seq<RecTokView> {
    match format_style {
        JsonFormat::Compact => {
            if kids.len() == 0 {
                Seq::empty()
            } else {
                seq![RecTokView::Child(kids[0])] + comma_sep(kids.drop_first())
            }
        },
        JsonFormat::Pretty => {
            if kids.len() == 0 {
                Seq::empty()
            } else {
                seq![
                    RecTokView::Tok(TokenView::Indent),
                    RecTokView::Tok(TokenView::Newline),
                    RecTokView::Child(kids[0]),
                ] + pretty_sep(kids.drop_first()) + seq![
                    RecTokView::Tok(TokenView::Dedent),
                    RecTokView::Tok(TokenView::Newline),
                ]
            }
        },
    }
}

impl Json {
    /// The children of this node, as a sequence of arena indices.
    pub open spec fn spec_kids(&self) -> Seq<usize> {
        match self {
            Json::True => Seq::empty(),
            Json::False => Seq::empty(),
            Json::Str(s) => Seq::empty(),
            Json::Array(v) => v@,
            Json::Object(v) => v@,
            Json::Field(v) => v@,
            Json::Root(v) => v@,
        }
    }

    /// The number of children of this node.
    pub fn child_count(&self) -> (r: usize)
        ensures
            r == self.spec_kids().len(),
    {
        match self {
            Json::True => 0,
            Json::False => 0,
            Json::Str(s) => 0,
            Json::Array(v) => v.len(),
            Json::Object(v) => v.len(),
            Json::Field(v) => v.len(),
            Json::Root(v) => v.len(),
        }
    }

    /// The smallest number of children this node type permits: two for a
    /// field (key and value), one for a root, zero for everything else.
    pub fn min_children(&self) -> (r: usize)
        ensures
            r == self.spec_min_children(),
    {
        match self {
            Json::Field(v) => 2,
            Json::Root(v) => 1,
            _ => 0,
        }
    }

    /// The largest number of children this node type permits: arrays and
    /// objects are unbounded, a field holds exactly two children, a root
    /// exactly one, and the leaves none.
    pub fn max_children(&self) -> (r: Option<usize>)
        ensures
            r == self.spec_max_children(),
    {
        match self {
            Json::True => Some(0),
            Json::False => Some(0),
            Json::Str(s) => Some(0),
            Json::Array(v) => None,
            Json::Object(v) => None,
            Json::Field(v) => Some(2),
            Json::Root(v) => Some(1),
        }
    }
}

impl Default for Json {
    /// A fresh tree starts as an empty object.
    fn default() -> (r: Self)
        ensures
            r matches Json::Object(v) && v@ == Seq::<usize>::empty(),
            r.spec_kids() == Seq::<usize>::empty(),
    {
        let r = Json::Object(Vec::new());
        proof {
            assert(r.spec_kids() =~= Seq::<usize>::empty());
        }
        r
    }
}

/// Copy a vector of indices.
fn copy_indices(v: &Vec<usize>) -> (r: Vec<usize>)
    ensures
        r@ == v@,
{
    let mut r: Vec<usize> = Vec::new();
    let mut k: usize = 0;
    while k < v.len()
        invariant
            k <= v@.len(),
            r@ == v@.subrange(0, k as int),
        decreases v@.len() - k,
    {
        r.push(v[k]);
        proof {
            assert(v@.subrange(0, k as int).push(v@[k as int]) =~= v@.subrange(0, k as int + 1));
        }
        k += 1;
    }
    proof {
        assert(v@.subrange(0, v@.len() as int) =~= v@);
    }
    r
}

/// The replacement and insertion shorthand characters of the JSON grammar:
/// `t`rue, `f`alse, `s`tring, `a`rray and `o`bject.
fn value_chars() -> (r: Vec<char>)
    ensures
        r@ == seq!['t', 'f', 's', 'a', 'o'],
        r@.no_duplicates(),
{
    let mut r: Vec<char> = Vec::new();
    r.push('t');
    r.push('f');
    r.push('s');
    r.push('a');
    r.push('o');
    proof {
        assert(r@ =~= seq!['t', 'f', 's', 'a', 'o']);
        assert(r@.no_duplicates());
    }
    r
}

/// Append one `Child` unit per index in `kids`.
fn push_children_only(out: &mut Vec<RecTok>, kids: &Vec<usize>)
    ensures
        rec_toks_view(final(out)@) == rec_toks_view(old(out)@) + children_only(kids@),
{
    let mut k: usize = 0;
    proof {
        assert(kids@.skip(0) =~= kids@);
        assert(rec_toks_view(old(out)@) + children_only(kids@) =~= rec_toks_view(out@)
            + children_only(kids@.skip(0)));
    }
    while k < kids.len()
        invariant
            k <= kids@.len(),
            rec_toks_view(old(out)@) + children_only(kids@) == rec_toks_view(out@)
                + children_only(kids@.skip(k as int)),
        decreases kids@.len() - k,
    {
        let ghost rest = kids@.skip(k as int);
        let ghost pre = rec_toks_view(out@);
        proof {
            assert(rest[0] == kids@[k as int]);
            assert(rest.drop_first() =~= kids@.skip(k as int + 1));
        }
        out.push(RecTok::Child(kids[k]));
        proof {
            assert(rec_toks_view(out@) =~= pre + seq![RecTokView::Child(kids@[k as int])]);
            assert(children_only(rest) == seq![RecTokView::Child(rest[0])] + children_only(
                rest.drop_first(),
            ));
            assert(pre + children_only(rest) =~= rec_toks_view(out@) + children_only(
                kids@.skip(k as int + 1),
            ));
        }
        k += 1;
    }
    proof {
        assert(children_only(kids@.skip(kids@.len() as int)) == Seq::<RecTokView>::empty());
        assert(rec_toks_view(out@) + Seq::<RecTokView>::empty() =~= rec_toks_view(out@));
    }
}

/// Append the inside of a bracketed list for the given format style.
fn push_list_body(out: &mut Vec<RecTok>, kids: &Vec<usize>, format_style: &JsonFormat)
    ensures
        rec_toks_view(final(out)@) == rec_toks_view(old(out)@) + list_body(kids@, *format_style),
{
    match format_style {
        JsonFormat::Compact => {
            if kids.len() == 0 {
                proof {
                    assert(rec_toks_view(out@) + list_body(kids@, *format_style) =~= rec_toks_view(
                        out@,
                    ));
                }
            } else {
                let ghost start = rec_toks_view(out@);
                out.push(RecTok::Child(kids[0]));
                let mut k: usize = 1;
                proof {
                    assert(rec_toks_view(out@) =~= start + seq![RecTokView::Child(kids@[0])]);
                    assert(kids@.drop_first() =~= kids@.skip(1));
                    assert(start + list_body(kids@, *format_style) =~= rec_toks_view(out@)
                        + comma_sep(kids@.skip(1)));
                }
                while k < kids.len()
                    invariant
                        1 <= k <= kids@.len(),
                        start + list_body(kids@, *format_style) == rec_toks_view(out@) + comma_sep(
                            kids@.skip(k as int),
                        ),
                    decreases kids@.len() - k,
                {
                    let ghost rest = kids@.skip(k as int);
                    let ghost pre = rec_toks_view(out@);
                    proof {
                        assert(rest[0] == kids@[k as int]);
                        assert(rest.drop_first() =~= kids@.skip(k as int + 1));
                    }
                    out.push(RecTok::Tok(DisplayToken::Text(",".to_owned(), "default")));
                    out.push(RecTok::Tok(DisplayToken::Whitespace(1)));
                    out.push(RecTok::Child(kids[k]));
                    proof {
                        assert(rec_toks_view(out@) =~= pre + seq![
                            RecTokView::Tok(TokenView::Text(","@, "default"@)),
                            RecTokView::Tok(TokenView::Whitespace(1)),
                            RecTokView::Child(kids@[k as int]),
                        ]);
                        assert(comma_sep(rest) == seq![
                            RecTokView::Tok(TokenView::Text(","@, "default"@)),
                            RecTokView::Tok(TokenView::Whitespace(1)),
                            RecTokView::Child(rest[0]),
                        ] + comma_sep(rest.drop_first()));
                        assert(pre + comma_sep(rest) =~= rec_toks_view(out@) + comma_sep(
                            kids@.skip(k as int + 1),
                        ));
                    }
                    k += 1;
                }
                proof {
                    assert(comma_sep(kids@.skip(kids@.len() as int)) == Seq::<RecTokView>::empty());
                    assert(rec_toks_view(out@) + Seq::<RecTokView>::empty() =~= rec_toks_view(
                        out@,
                    ));
                }
            }
        },
        JsonFormat::Pretty => {
            if kids.len() == 0 {
                proof {
                    assert(rec_toks_view(out@) + list_body(kids@, *format_style) =~= rec_toks_view(
                        out@,
                    ));
                }
            } else {
                let ghost start = rec_toks_view(out@);
                let ghost opening = seq![
                    RecTokView::Tok(TokenView::Indent),
                    RecTokView::Tok(TokenView::Newline),
                    RecTokView::Child(kids@[0]),
                ];
                let ghost middle = opening + pretty_sep(kids@.drop_first());
                out.push(RecTok::Tok(DisplayToken::Indent));
                out.push(RecTok::Tok(DisplayToken::Newline));
                out.push(RecTok::Child(kids[0]));
                let mut k: usize = 1;
                proof {
                    assert(rec_toks_view(out@) =~= start + opening);
                    assert(kids@.drop_first() =~= kids@.skip(1));
                    assert(start + middle =~= rec_toks_view(out@) + pretty_sep(kids@.skip(1)));
                }
                while k < kids.len()
                    invariant
                        1 <= k <= kids@.len(),
                        middle == opening + pretty_sep(kids@.drop_first()),
                        start + middle == rec_toks_view(out@) + pretty_sep(kids@.skip(k as int)),
                    decreases kids@.len() - k,
                {
                    let ghost rest = kids@.skip(k as int);
                    let ghost pre = rec_toks_view(out@);
                    proof {
                        assert(rest[0] == kids@[k as int]);
                        assert(rest.drop_first() =~= kids@.skip(k as int + 1));
                    }
                    out.push(RecTok::Tok(DisplayToken::Text(",".to_owned(), "default")));
                    out.push(RecTok::Tok(DisplayToken::Newline));
                    out.push(RecTok::Child(kids[k]));
                    proof {
                        assert(rec_toks_view(out@) =~= pre + seq![
                            RecTokView::Tok(TokenView::Text(","@, "default"@)),
                            RecTokView::Tok(TokenView::Newline),
                            RecTokView::Child(kids@[k as int]),
                        ]);
                        assert(pretty_sep(rest) == seq![
                            RecTokView::Tok(TokenView::Text(","@, "default"@)),
                            RecTokView::Tok(TokenView::Newline),
                            RecTokView::Child(rest[0]),
                        ] + pretty_sep(rest.drop_first()));
                        assert(pre + pretty_sep(rest) =~= rec_toks_view(out@) + pretty_sep(
                            kids@.skip(k as int + 1),
                        ));
                    }
                    k += 1;
                }
                let ghost mid_done = rec_toks_view(out@);
                out.push(RecTok::Tok(DisplayToken::Dedent));
                out.push(RecTok::Tok(DisplayToken::Newline));
                proof {
                    assert(pretty_sep(kids@.skip(kids@.len() as int))
                        == Seq::<RecTokView>::empty());
                    assert(mid_done =~= start + middle);
                    assert(rec_toks_view(out@) =~= mid_done + seq![
                        RecTokView::Tok(TokenView::Dedent),
                        RecTokView::Tok(TokenView::Newline),
                    ]);
                    assert(list_body(kids@, *format_style) =~= middle + seq![
                        RecTokView::Tok(TokenView::Dedent),
                        RecTokView::Tok(TokenView::Newline),
                    ]);
                    assert(rec_toks_view(out@) =~= start + list_body(kids@, *format_style));
                }
            }
        },
    }
}


/// The replacement and insertion shorthand set as a sequence.
pub open spec fn spec_value_chars() -> Seq<char> {
    seq!['t', 'f', 's', 'a', 'o']
}

/// Every unit of `toks` that references a child references one of `kids`.
pub open spec fn childs_from(toks: Seq<RecTokView>, kids: Seq<usize>) -> bool {
    forall|k: int|
        0 <= k < toks.len() ==> ((#[trigger] toks[k]) matches RecTokView::Child(c)
            ==> kids.contains(c))
}

/// `childs_from` distributes over concatenation.
proof fn lemma_childs_from_add(a: Seq<RecTokView>, b: Seq<RecTokView>, kids: Seq<usize>)
    requires
        childs_from(a, kids),
        childs_from(b, kids),
    ensures
        childs_from(a + b, kids),
{
    assert forall|k: int|
        0 <= k < (a + b).len() implies ((#[trigger] (a + b)[k]) matches RecTokView::Child(c)
        ==> kids.contains(c)) by {
        if k < a.len() {
            assert((a + b)[k] == a[k]);
        } else {
            assert((a + b)[k] == b[k - a.len()]);
        }
    }
}

/// Whatever a suffix's child references are contained in, the whole list's
/// are too once the dropped head is accounted for.
proof fn lemma_contains_drop_first(kids: Seq<usize>, c: usize)
    requires
        kids.len() > 0,
        kids.drop_first().contains(c),
    ensures
        kids.contains(c),
{
    let j = choose|j: int| 0 <= j < kids.drop_first().len() && kids.drop_first()[j] == c;
    assert(kids[j + 1] == c);
}

/// The separators reference exactly the given children.
proof fn lemma_sep_childs(kids: Seq<usize>)
    ensures
        childs_from(children_only(kids), kids),
        childs_from(comma_sep(kids), kids),
        childs_from(pretty_sep(kids), kids),
    decreases kids.len(),
{
    if kids.len() == 0 {
    } else {
        lemma_sep_childs(kids.drop_first());
        assert(kids.contains(kids[0]));
        assert forall|k: int|
            0 <= k < children_only(kids).len() implies ((#[trigger] children_only(kids)[k])
            matches RecTokView::Child(c) ==> kids.contains(c)) by {
            if k == 0 {
                assert(children_only(kids)[0] == RecTokView::Child(kids[0]));
            } else {
                assert(children_only(kids)[k] == children_only(kids.drop_first())[k - 1]);
                match children_only(kids.drop_first())[k - 1] {
                    RecTokView::Child(c) => {
                        assert(kids.drop_first().contains(c));
                        lemma_contains_drop_first(kids, c);
                    },
                    _ => {},
                }
            }
        }
        assert forall|k: int|
            0 <= k < comma_sep(kids).len() implies ((#[trigger] comma_sep(kids)[k])
            matches RecTokView::Child(c) ==> kids.contains(c)) by {
            if k < 3 {
                assert(comma_sep(kids)[2] == RecTokView::Child(kids[0]));
            } else {
                assert(comma_sep(kids)[k] == comma_sep(kids.drop_first())[k - 3]);
                match comma_sep(kids.drop_first())[k - 3] {
                    RecTokView::Child(c) => {
                        assert(kids.drop_first().contains(c));
                        lemma_contains_drop_first(kids, c);
                    },
                    _ => {},
                }
            }
        }
        assert forall|k: int|
            0 <= k < pretty_sep(kids).len() implies ((#[trigger] pretty_sep(kids)[k])
            matches RecTokView::Child(c) ==> kids.contains(c)) by {
            if k < 3 {
                assert(pretty_sep(kids)[2] == RecTokView::Child(kids[0]));
            } else {
                assert(pretty_sep(kids)[k] == pretty_sep(kids.drop_first())[k - 3]);
                match pretty_sep(kids.drop_first())[k - 3] {
                    RecTokView::Child(c) => {
                        assert(kids.drop_first().contains(c));
                        lemma_contains_drop_first(kids, c);
                    },
                    _ => {},
                }
            }
        }
    }
}

/// The separators carry no indentation markers.
proof fn lemma_sep_balanced(kids: Seq<usize>)
    ensures
        rec_indents(children_only(kids)) == 0,
        rec_dedents(children_only(kids)) == 0,
        rec_indents(comma_sep(kids)) == 0,
        rec_dedents(comma_sep(kids)) == 0,
        rec_indents(pretty_sep(kids)) == 0,
        rec_dedents(pretty_sep(kids)) == 0,
    decreases kids.len(),
{
    if kids.len() == 0 {
        assert(rec_indents(Seq::<RecTokView>::empty()) == 0);
        assert(rec_dedents(Seq::<RecTokView>::empty()) == 0);
    } else {
        lemma_sep_balanced(kids.drop_first());
        crate::display_token::lemma_rec_counts_single(RecTokView::Child(kids[0]));
        crate::display_token::lemma_rec_counts_single(
            RecTokView::Tok(TokenView::Text(","@, "default"@)),
        );
        crate::display_token::lemma_rec_counts_single(
            RecTokView::Tok(TokenView::Whitespace(1)),
        );
        crate::display_token::lemma_rec_counts_single(RecTokView::Tok(TokenView::Newline));
        let head1 = seq![RecTokView::Child(kids[0])];
        crate::display_token::lemma_rec_counts_add(head1, children_only(kids.drop_first()));
        let head3c = seq![
            RecTokView::Tok(TokenView::Text(","@, "default"@)),
            RecTokView::Tok(TokenView::Whitespace(1)),
            RecTokView::Child(kids[0]),
        ];
        lemma_seq3_counts(
            RecTokView::Tok(TokenView::Text(","@, "default"@)),
            RecTokView::Tok(TokenView::Whitespace(1)),
            RecTokView::Child(kids[0]),
        );
        crate::display_token::lemma_rec_counts_add(head3c, comma_sep(kids.drop_first()));
        let head3p = seq![
            RecTokView::Tok(TokenView::Text(","@, "default"@)),
            RecTokView::Tok(TokenView::Newline),
            RecTokView::Child(kids[0]),
        ];
        lemma_seq3_counts(
            RecTokView::Tok(TokenView::Text(","@, "default"@)),
            RecTokView::Tok(TokenView::Newline),
            RecTokView::Child(kids[0]),
        );
        crate::display_token::lemma_rec_counts_add(head3p, pretty_sep(kids.drop_first()));
    }
}

/// The marker counts of a three-unit sequence.
proof fn lemma_seq3_counts(a: RecTokView, b: RecTokView, c: RecTokView)
    ensures
        rec_indents(seq![a, b, c]) == rec_indents(seq![a]) + rec_indents(seq![b]) + rec_indents(
            seq![c],
        ),
        rec_dedents(seq![a, b, c]) == rec_dedents(seq![a]) + rec_dedents(seq![b]) + rec_dedents(
            seq![c],
        ),
{
    assert(seq![a, b, c] =~= seq![a] + seq![b] + seq![c]);
    crate::display_token::lemma_rec_counts_add(seq![a] + seq![b], seq![c]);
    crate::display_token::lemma_rec_counts_add(seq![a], seq![b]);
}

impl Ast for Json {
    type FormatStyle = JsonFormat;

    open spec fn spec_children(&self) -> Seq<usize> {
        self.spec_kids()
    }

    open spec fn spec_min_children(&self) -> usize {
        match self {
            Json::Field(v) => 2,
            Json::Root(v) => 1,
            _ => 0,
        }
    }

    open spec fn spec_max_children(&self) -> Option<usize> {
        match self {
            Json::True => Some(0),
            Json::False => Some(0),
            Json::Str(s) => Some(0),
            Json::Array(v) => None,
            Json::Object(v) => None,
            Json::Field(v) => Some(2),
            Json::Root(v) => Some(1),
        }
    }

    open spec fn spec_display_name(&self) -> Seq<char> {
        match self {
            Json::True => "true"@,
            Json::False => "false"@,
            Json::Str(s) => "\""@ + s@ + "\""@,
            Json::Array(v) => "array"@,
            Json::Object(v) => "object"@,
            Json::Field(v) => "field"@,
            Json::Root(v) => "root"@,
        }
    }

    open spec fn spec_rec_toks(&self, format_style: &JsonFormat) -> Seq<RecTokView> {
        match self {
            Json::True => seq![RecTokView::Tok(TokenView::Text("true"@, "const"@))],
            Json::False => seq![RecTokView::Tok(TokenView::Text("false"@, "const"@))],
            Json::Str(s) => seq![
                RecTokView::Tok(TokenView::Text("\""@ + s@ + "\""@, "literal"@)),
            ],
            Json::Root(v) => children_only(v@),
            Json::Field(v) => if v@.len() == 2 {
                seq![
                    RecTokView::Child(v@[0]),
                    RecTokView::Tok(TokenView::Text(":"@, "default"@)),
                    RecTokView::Tok(TokenView::Whitespace(1)),
                    RecTokView::Child(v@[1]),
                ]
            } else {
                children_only(v@)
            },
            Json::Array(v) => seq![RecTokView::Tok(TokenView::Text("["@, "default"@))]
                + list_body(v@, *format_style) + seq![
                RecTokView::Tok(TokenView::Text("]"@, "default"@)),
            ],
            Json::Object(v) => seq![RecTokView::Tok(TokenView::Text("{"@, "default"@))]
                + list_body(v@, *format_style) + seq![
                RecTokView::Tok(TokenView::Text("}"@, "default"@)),
            ],
        }
    }

    open spec fn spec_replace_chars(&self) -> Seq<char> {
        match self {
            Json::Field(v) => Seq::empty(),
            Json::Root(v) => Seq::empty(),
            _ => spec_value_chars(),
        }
    }

    open spec fn spec_insert_chars(&self) -> Seq<char> {
        match self {
            Json::Array(v) => spec_value_chars(),
            Json::Object(v) => spec_value_chars(),
            Json::Root(v) => spec_value_chars(),
            _ => Seq::empty(),
        }
    }

    proof fn lemma_rec_toks_are_children(&self, format_style: &JsonFormat) {
        let toks = self.spec_rec_toks(format_style);
        let kids = self.spec_children();
        lemma_sep_childs(kids);
        match self {
            Json::Array(v) => {
                lemma_list_body_childs(v@, *format_style);
                lemma_childs_from_add(
                    seq![RecTokView::Tok(TokenView::Text("["@, "default"@))],
                    list_body(v@, *format_style),
                    v@,
                );
                lemma_childs_from_add(
                    seq![RecTokView::Tok(TokenView::Text("["@, "default"@))] + list_body(
                        v@,
                        *format_style,
                    ),
                    seq![RecTokView::Tok(TokenView::Text("]"@, "default"@))],
                    v@,
                );
            },
            Json::Object(v) => {
                lemma_list_body_childs(v@, *format_style);
                lemma_childs_from_add(
                    seq![RecTokView::Tok(TokenView::Text("{"@, "default"@))],
                    list_body(v@, *format_style),
                    v@,
                );
                lemma_childs_from_add(
                    seq![RecTokView::Tok(TokenView::Text("{"@, "default"@))] + list_body(
                        v@,
                        *format_style,
                    ),
                    seq![RecTokView::Tok(TokenView::Text("}"@, "default"@))],
                    v@,
                );
            },
            Json::Field(v) => {
                if v@.len() == 2 {
                    assert(kids.contains(v@[0])) by {
                        assert(kids[0] == v@[0]);
                    }
                    assert(kids.contains(v@[1])) by {
                        assert(kids[1] == v@[1]);
                    }
                }
            },
            _ => {},
        }
    }

    proof fn lemma_rec_toks_balanced(&self, format_style: &JsonFormat) {
        let toks = self.spec_rec_toks(format_style);
        match self {
            Json::True => {
                crate::display_token::lemma_rec_counts_single(toks[0]);
                assert(toks =~= seq![toks[0]]);
            },
            Json::False => {
                crate::display_token::lemma_rec_counts_single(toks[0]);
                assert(toks =~= seq![toks[0]]);
            },
            Json::Str(s) => {
                crate::display_token::lemma_rec_counts_single(toks[0]);
                assert(toks =~= seq![toks[0]]);
            },
            Json::Root(v) => {
                lemma_sep_balanced(v@);
            },
            Json::Field(v) => {
                lemma_sep_balanced(v@);
                if v@.len() == 2 {
                    lemma_seq3_counts(toks[0], toks[1], toks[2]);
                    crate::display_token::lemma_rec_counts_single(toks[0]);
                    crate::display_token::lemma_rec_counts_single(toks[1]);
                    crate::display_token::lemma_rec_counts_single(toks[2]);
                    crate::display_token::lemma_rec_counts_single(toks[3]);
                    crate::display_token::lemma_rec_counts_add(
                        seq![toks[0], toks[1], toks[2]],
                        seq![toks[3]],
                    );
                    assert(toks =~= seq![toks[0], toks[1], toks[2]] + seq![toks[3]]);
                }
            },
            Json::Array(v) => {
                lemma_bracketed_balanced(
                    TokenView::Text("["@, "default"@),
                    TokenView::Text("]"@, "default"@),
                    v@,
                    *format_style,
                );
            },
            Json::Object(v) => {
                lemma_bracketed_balanced(
                    TokenView::Text("{"@, "default"@),
                    TokenView::Text("}"@, "default"@),
                    v@,
                    *format_style,
                );
            },
        }
    }

    fn children(&self) -> (r: Vec<usize>) {
        match self {
            Json::True => Vec::new(),
            Json::False => Vec::new(),
            Json::Str(s) => Vec::new(),
            Json::Array(v) => copy_indices(v),
            Json::Object(v) => copy_indices(v),
            Json::Field(v) => copy_indices(v),
            Json::Root(v) => copy_indices(v),
        }
    }

    fn replace_child(&mut self, index: usize, new_child: usize) {
        match self {
            Json::Array(v) => {
                v.remove(index);
                v.insert(index, new_child);
            },
            Json::Object(v) => {
                v.remove(index);
                v.insert(index, new_child);
            },
            Json::Field(v) => {
                v.remove(index);
                v.insert(index, new_child);
            },
            Json::Root(v) => {
                v.remove(index);
                v.insert(index, new_child);
            },
            _ => {
                proof {
                    assert(false);
                }
            },
        }
        proof {
            assert(final(self).spec_children() =~= old(self).spec_children().update(
                index as int,
                new_child,
            ));
        }
    }

    fn delete_child(&mut self, index: usize) -> (r: Result<(), DeleteError>) {
        let len = self.child_count();
        if index >= len {
            return Err(DeleteError::IndexOutOfRange { len, index });
        }
        let min = self.min_children();
        if len <= min {
            return Err(
                DeleteError::TooFewChildren { name: self.display_name(), min_children: min },
            );
        }
        match self {
            Json::Array(v) => {
                v.remove(index);
            },
            Json::Object(v) => {
                v.remove(index);
            },
            Json::Field(v) => {
                v.remove(index);
            },
            Json::Root(v) => {
                v.remove(index);
            },
            _ => {
                proof {
                    assert(false);
                }
            },
        }
        Ok(())
    }

    fn insert_child(&mut self, new_node: usize, arena: &mut Arena<Json>, index: usize) -> (r:
        Result<(), InsertError>) {
        let count = self.child_count();
        match self.max_children() {
            Some(m) => {
                if count >= m {
                    return Err(
                        InsertError::TooManyChildren { name: self.display_name(), max_children: m },
                    );
                }
            },
            None => {},
        }
        match self {
            Json::Object(v) => {
                let key = arena.add_node(Json::Str(String::new()));
                let mut fv: Vec<usize> = Vec::new();
                fv.push(key);
                fv.push(new_node);
                let field = arena.add_node(Json::Field(fv));
                v.insert(index, field);
                proof {
                    assert(final(arena)@.len() == old(arena)@.len() + 2);
                    assert(final(arena)@[old(arena)@.len() as int].spec_children()
                        =~= Seq::<usize>::empty());
                    assert(final(arena)@[old(arena)@.len() as int + 1].spec_children() =~= seq![
                        key,
                        new_node,
                    ]);
                }
            },
            Json::Array(v) => {
                v.insert(index, new_node);
            },
            Json::Root(v) => {
                v.insert(index, new_node);
            },
            Json::Field(v) => {
                v.insert(index, new_node);
            },
            _ => {
                proof {
                    assert(false);
                }
            },
        }
        Ok(())
    }

    fn display_name(&self) -> (r: String) {
        match self {
            Json::True => "true".to_owned(),
            Json::False => "false".to_owned(),
            Json::Str(s) => {
                let mut q = "\"".to_owned();
                q.append(s.as_str());
                q.append("\"");
                q
            },
            Json::Array(v) => "array".to_owned(),
            Json::Object(v) => "object".to_owned(),
            Json::Field(v) => "field".to_owned(),
            Json::Root(v) => "root".to_owned(),
        }
    }

    fn display_tokens_rec(&self, format_style: &JsonFormat) -> (r: Vec<RecTok>) {
        match self {
            Json::True => {
                let mut out: Vec<RecTok> = Vec::new();
                out.push(RecTok::Tok(DisplayToken::Text("true".to_owned(), "const")));
                proof {
                    assert(rec_toks_view(out@) =~= self.spec_rec_toks(format_style));
                }
                out
            },
            Json::False => {
                let mut out: Vec<RecTok> = Vec::new();
                out.push(RecTok::Tok(DisplayToken::Text("false".to_owned(), "const")));
                proof {
                    assert(rec_toks_view(out@) =~= self.spec_rec_toks(format_style));
                }
                out
            },
            Json::Str(s) => {
                let mut q = "\"".to_owned();
                q.append(s.as_str());
                q.append("\"");
                let mut out: Vec<RecTok> = Vec::new();
                out.push(RecTok::Tok(DisplayToken::Text(q, "literal")));
                proof {
                    assert(rec_toks_view(out@) =~= self.spec_rec_toks(format_style));
                }
                out
            },
            Json::Root(v) => {
                let mut out: Vec<RecTok> = Vec::new();
                push_children_only(&mut out, v);
                proof {
                    assert(rec_toks_view(Seq::<RecTok>::empty()) =~= Seq::<RecTokView>::empty());
                    assert(rec_toks_view(out@) =~= self.spec_rec_toks(format_style));
                }
                out
            },
            Json::Field(v) => {
                if v.len() == 2 {
                    let mut out: Vec<RecTok> = Vec::new();
                    out.push(RecTok::Child(v[0]));
                    out.push(RecTok::Tok(DisplayToken::Text(":".to_owned(), "default")));
                    out.push(RecTok::Tok(DisplayToken::Whitespace(1)));
                    out.push(RecTok::Child(v[1]));
                    proof {
                        assert(rec_toks_view(out@) =~= self.spec_rec_toks(format_style));
                    }
                    out
                } else {
                    let mut out: Vec<RecTok> = Vec::new();
                    push_children_only(&mut out, v);
                    proof {
                        assert(rec_toks_view(Seq::<RecTok>::empty())
                            =~= Seq::<RecTokView>::empty());
                        assert(rec_toks_view(out@) =~= self.spec_rec_toks(format_style));
                    }
                    out
                }
            },
            Json::Array(v) => {
                let mut out: Vec<RecTok> = Vec::new();
                out.push(RecTok::Tok(DisplayToken::Text("[".to_owned(), "default")));
                let ghost opened = rec_toks_view(out@);
                push_list_body(&mut out, v, format_style);
                let ghost bodied = rec_toks_view(out@);
                out.push(RecTok::Tok(DisplayToken::Text("]".to_owned(), "default")));
                proof {
                    assert(opened =~= seq![RecTokView::Tok(TokenView::Text("["@, "default"@))]);
                    assert(rec_toks_view(out@) =~= bodied + seq![
                        RecTokView::Tok(TokenView::Text("]"@, "default"@)),
                    ]);
                    assert(rec_toks_view(out@) =~= self.spec_rec_toks(format_style));
                }
                out
            },
            Json::Object(v) => {
                let mut out: Vec<RecTok> = Vec::new();
                out.push(RecTok::Tok(DisplayToken::Text("{".to_owned(), "default")));
                let ghost opened = rec_toks_view(out@);
                push_list_body(&mut out, v, format_style);
                let ghost bodied = rec_toks_view(out@);
                out.push(RecTok::Tok(DisplayToken::Text("}".to_owned(), "default")));
                proof {
                    assert(opened =~= seq![RecTokView::Tok(TokenView::Text("{"@, "default"@))]);
                    assert(rec_toks_view(out@) =~= bodied + seq![
                        RecTokView::Tok(TokenView::Text("}"@, "default"@)),
                    ]);
                    assert(rec_toks_view(out@) =~= self.spec_rec_toks(format_style));
                }
                out
            },
        }
    }

    fn replace_chars(&self) -> (r: Vec<char>) {
        match self {
            Json::Field(v) => {
                let r: Vec<char> = Vec::new();
                proof {
                    assert(r@ =~= Seq::<char>::empty());
                    assert(r@.no_duplicates());
                }
                r
            },
            Json::Root(v) => {
                let r: Vec<char> = Vec::new();
                proof {
                    assert(r@ =~= Seq::<char>::empty());
                    assert(r@.no_duplicates());
                }
                r
            },
            _ => value_chars(),
        }
    }

    fn from_char(&self, c: char) -> (r: Option<Json>)
        ensures
            self.spec_replace_chars().len() > 0 && c == 't' ==> r == Some(Json::True),
            self.spec_replace_chars().len() > 0 && c == 'f' ==> r == Some(Json::False),
            self.spec_replace_chars().len() > 0 && c == 's' ==> (r matches Some(Json::Str(s2))
                && s2@ == Seq::<char>::empty()),
            self.spec_replace_chars().len() > 0 && c == 'a' ==> (r matches Some(Json::Array(v2))
                && v2@ == Seq::<usize>::empty()),
            self.spec_replace_chars().len() > 0 && c == 'o' ==> (r matches Some(Json::Object(v2))
                && v2@ == Seq::<usize>::empty()),
    {
        let replaceable = match self {
            Json::Field(v) => false,
            Json::Root(v) => false,
            _ => true,
        };
        if !replaceable {
            proof {
                assert(!self.spec_replace_chars().contains(c));
            }
            return None;
        }
        let r = match c {
            't' => Some(Json::True),
            'f' => Some(Json::False),
            's' => Some(Json::Str(String::new())),
            'a' => Some(Json::Array(Vec::new())),
            'o' => Some(Json::Object(Vec::new())),
            _ => None,
        };
        proof {
            if c == 't' || c == 'f' || c == 's' || c == 'a' || c == 'o' {
                assert(spec_value_chars().contains(c)) by {
                    if c == 't' {
                        assert(spec_value_chars()[0] == 't');
                    } else if c == 'f' {
                        assert(spec_value_chars()[1] == 'f');
                    } else if c == 's' {
                        assert(spec_value_chars()[2] == 's');
                    } else if c == 'a' {
                        assert(spec_value_chars()[3] == 'a');
                    } else {
                        assert(spec_value_chars()[4] == 'o');
                    }
                }
            } else {
                assert(!spec_value_chars().contains(c));
            }
        }
        r
    }

    fn insert_chars(&self) -> (r: Vec<char>) {
        match self {
            Json::Array(v) => value_chars(),
            Json::Object(v) => value_chars(),
            Json::Root(v) => value_chars(),
            _ => {
                let r: Vec<char> = Vec::new();
                proof {
                    assert(r@ =~= Seq::<char>::empty());
                }
                r
            },
        }
    }
}

/// Every child reference of a list body is one of the listed children.
proof fn lemma_list_body_childs(kids: Seq<usize>, format_style: JsonFormat)
    ensures
        childs_from(list_body(kids, format_style), kids),
{
    lemma_sep_childs(kids);
    if kids.len() > 0 {
        lemma_sep_childs(kids.drop_first());
        assert(kids.contains(kids[0]));
        match format_style {
            JsonFormat::Compact => {
                assert forall|k: int|
                    0 <= k < list_body(kids, format_style).len() implies ((#[trigger] list_body(
                    kids,
                    format_style,
                )[k]) matches RecTokView::Child(c) ==> kids.contains(c)) by {
                    let body = seq![RecTokView::Child(kids[0])] + comma_sep(kids.drop_first());
                    assert(list_body(kids, format_style) == body);
                    if k == 0 {
                        assert(body[0] == RecTokView::Child(kids[0]));
                    } else {
                        assert(body[k] == comma_sep(kids.drop_first())[k - 1]);
                        match comma_sep(kids.drop_first())[k - 1] {
                            RecTokView::Child(c) => {
                                assert(kids.drop_first().contains(c));
                                lemma_contains_drop_first(kids, c);
                            },
                            _ => {},
                        }
                    }
                }
            },
            JsonFormat::Pretty => {
                let opening = seq![
                    RecTokView::Tok(TokenView::Indent),
                    RecTokView::Tok(TokenView::Newline),
                    RecTokView::Child(kids[0]),
                ];
                let closing = seq![
                    RecTokView::Tok(TokenView::Dedent),
                    RecTokView::Tok(TokenView::Newline),
                ];
                assert forall|k: int|
                    0 <= k < list_body(kids, format_style).len() implies ((#[trigger] list_body(
                    kids,
                    format_style,
                )[k]) matches RecTokView::Child(c) ==> kids.contains(c)) by {
                    let mid = opening + pretty_sep(kids.drop_first());
                    let body = mid + closing;
                    assert(list_body(kids, format_style) == body);
                    if k < 3 {
                        assert(body[k] == opening[k]);
                        assert(opening[2] == RecTokView::Child(kids[0]));
                    } else if k < mid.len() {
                        assert(body[k] == mid[k]);
                        assert(mid[k] == pretty_sep(kids.drop_first())[k - 3]);
                        match pretty_sep(kids.drop_first())[k - 3] {
                            RecTokView::Child(c) => {
                                assert(kids.drop_first().contains(c));
                                lemma_contains_drop_first(kids, c);
                            },
                            _ => {},
                        }
                    } else {
                        assert(body[k] == closing[k - mid.len()]);
                    }
                }
            },
        }
    }
}

/// A bracketed list has balanced indentation markers: none in the compact
/// style, one `Indent` and one `Dedent` in the pretty style.
proof fn lemma_bracketed_balanced(
    open_tok: TokenView,
    close_tok: TokenView,
    kids: Seq<usize>,
    format_style: JsonFormat,
)
    requires
        !(open_tok is Indent),
        !(open_tok is Dedent),
        !(close_tok is Indent),
        !(close_tok is Dedent),
    ensures
        rec_indents(
            seq![RecTokView::Tok(open_tok)] + list_body(kids, format_style) + seq![
                RecTokView::Tok(close_tok),
            ],
        ) == rec_dedents(
            seq![RecTokView::Tok(open_tok)] + list_body(kids, format_style) + seq![
                RecTokView::Tok(close_tok),
            ],
        ),
{
    lemma_sep_balanced(kids);
    crate::display_token::lemma_rec_counts_single(RecTokView::Tok(open_tok));
    crate::display_token::lemma_rec_counts_single(RecTokView::Tok(close_tok));
    let body = list_body(kids, format_style);
    crate::display_token::lemma_rec_counts_add(seq![RecTokView::Tok(open_tok)], body);
    crate::display_token::lemma_rec_counts_add(
        seq![RecTokView::Tok(open_tok)] + body,
        seq![RecTokView::Tok(close_tok)],
    );
    if kids.len() == 0 {
        assert(rec_indents(Seq::<RecTokView>::empty()) == 0);
        assert(rec_dedents(Seq::<RecTokView>::empty()) == 0);
    } else {
        lemma_sep_balanced(kids.drop_first());
        match format_style {
            JsonFormat::Compact => {
                assert(body == seq![RecTokView::Child(kids[0])] + comma_sep(kids.drop_first()));
                crate::display_token::lemma_rec_counts_single(RecTokView::Child(kids[0]));
                crate::display_token::lemma_rec_counts_add(
                    seq![RecTokView::Child(kids[0])],
                    comma_sep(kids.drop_first()),
                );
            },
            JsonFormat::Pretty => {
                let opening = seq![
                    RecTokView::Tok(TokenView::Indent),
                    RecTokView::Tok(TokenView::Newline),
                    RecTokView::Child(kids[0]),
                ];
                let closing = seq![
                    RecTokView::Tok(TokenView::Dedent),
                    RecTokView::Tok(TokenView::Newline),
                ];
                assert(body == opening + pretty_sep(kids.drop_first()) + closing);
                lemma_seq3_counts(opening[0], opening[1], opening[2]);
                crate::display_token::lemma_rec_counts_single(opening[0]);
                crate::display_token::lemma_rec_counts_single(opening[1]);
                crate::display_token::lemma_rec_counts_single(opening[2]);
                assert(opening =~= seq![opening[0], opening[1], opening[2]]);
                crate::display_token::lemma_rec_counts_add(
                    opening,
                    pretty_sep(kids.drop_first()),
                );
                crate::display_token::lemma_rec_counts_add(
                    opening + pretty_sep(kids.drop_first()),
                    closing,
                );
                crate::display_token::lemma_rec_counts_single(closing[0]);
                crate::display_token::lemma_rec_counts_single(closing[1]);
                assert(closing =~= seq![closing[0]] + seq![closing[1]]);
                crate::display_token::lemma_rec_counts_add(seq![closing[0]], seq![closing[1]]);
            },
        }
    }
}

} // verus!
